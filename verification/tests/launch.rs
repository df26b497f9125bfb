use safe_package::directive::ParseError;
use safe_package::launch::{
    chroot, chroot_as, drop_privs, exec_pm, exec_pm_as, Action, Event, Fault, LaunchError,
    Launcher, Outcome, Stage, FAILED,
};
use safe_package::mounts::{ConfigError, MountOp};
use safe_package::options::MountOptions;

fn list(items: &[&str]) -> Vec<String> {
    items.iter().map(|t| t.to_string()).collect()
}

fn launcher(user: &str, root: &str, rules: &[&str]) -> Launcher {
    exec_pm_as("/usr/bin/pacman", list(&["-S", "vim"]), user, root, &list(rules), true).unwrap()
}

fn exit(code: i32, fault: Option<Fault>, residue: &[&str]) -> Action {
    Action::Exit(Outcome { code, fault, residue: list(residue) })
}

fn exec_action() -> Action {
    Action::Exec {
        path: "/usr/bin/pacman".to_string(),
        argv: list(&["/usr/bin/pacman", "-S", "vim"]),
    }
}

fn unmount(target: &str, force: bool) -> Action {
    Action::Unmount { target: target.to_string(), force }
}

/// A stand-in for the system: a mount table that the actions of one process
/// work on, and the answers that the system gives.
struct Machine {
    table: Vec<String>,
    is_child: bool,
    child_status: i32,
    users: Vec<(String, u32)>,
    refuse: Vec<Action>,
    log: Vec<Action>,
}

impl Machine {
    fn new(is_child: bool) -> Machine {
        Machine {
            table: list(&["/", "/proc", "/dev", "/dev/pts", "/sys"]),
            is_child,
            child_status: 0,
            users: vec![("nobody".to_string(), 65534)],
            refuse: Vec::new(),
            log: Vec::new(),
        }
    }

    fn perform(&mut self, action: &Action) -> Event {
        self.log.push(action.clone());
        if self.refuse.contains(action) {
            return Event::Failed;
        }
        match action {
            Action::Mount(MountOp::Bind { target, .. }) => {
                self.table.push(target.clone());
                Event::Done
            }
            Action::Mount(MountOp::RecursiveBind { source, target }) => {
                let below: Vec<String> = self
                    .table
                    .iter()
                    .filter(|m| m.starts_with(source.as_str()))
                    .map(|m| format!("{}{}", target, &m[source.len()..]))
                    .collect();
                self.table.extend(below);
                Event::Done
            }
            Action::Mount(_) => Event::Done,
            Action::Fork => {
                if self.is_child {
                    Event::Child
                } else {
                    Event::Parent
                }
            }
            Action::Chroot(_) | Action::SetUid(_) => Event::Done,
            Action::LookupUser(name) => match self.users.iter().find(|(n, _)| n == name) {
                Some((_, uid)) => Event::Uid(*uid),
                None => Event::Failed,
            },
            Action::Exec { .. } => unreachable!("a process that executes is gone"),
            Action::Wait => Event::Exited(self.child_status),
            Action::ReadMounts => Event::Mounts(self.table.clone()),
            Action::Unmount { target, .. } => {
                let above = self.table.iter().any(|m| m != target && m.starts_with(&format!("{}/", target)));
                match self.table.iter().rposition(|m| m == target) {
                    Some(at) if !above => {
                        self.table.remove(at);
                        Event::Done
                    }
                    _ => Event::Failed,
                }
            }
            Action::Exit(_) => unreachable!("a process that has exited is gone"),
        }
    }

    /// Runs the launcher until the process ends or becomes the program.
    fn run(&mut self, launcher: &mut Launcher) -> Action {
        let mut action = launcher.start();
        for _ in 0..1000 {
            match action {
                Action::Exit(_) | Action::Exec { .. } => {
                    self.log.push(action.clone());
                    return action;
                }
                _ => {
                    let event = self.perform(&action);
                    action = launcher.step(event);
                }
            }
        }
        panic!("the launch does not end");
    }

    fn touched_mounts(&self) -> bool {
        self.log.iter().any(|a| {
            matches!(
                a,
                Action::Mount(_) | Action::Unmount { .. } | Action::ReadMounts | Action::Chroot(_)
            )
        })
    }
}

#[test]
fn chroot_to_the_live_root_takes_nothing() {
    assert_eq!(chroot_as("/", false), Ok(None));
    assert_eq!(chroot_as("/", true), Ok(None));
    assert_eq!(chroot("/"), Ok(None));
}

#[test]
fn chroot_is_refused_without_root_identity() {
    assert_eq!(chroot_as("/cellblock/test", false), Err(LaunchError::NotRoot));
}

#[test]
fn chroot_as_root_is_the_chroot_action() {
    assert_eq!(
        chroot_as("/cellblock/test", true),
        Ok(Some(Action::Chroot("/cellblock/test".to_string())))
    );
}

#[test]
fn chroot_goes_by_the_effective_user_of_the_process() {
    let is_root = nix::unistd::geteuid().as_raw() == 0;
    assert_eq!(chroot("/cellblock/test"), chroot_as("/cellblock/test", is_root));
}

#[test]
fn launch_goes_by_the_effective_user_of_the_process() {
    let is_root = nix::unistd::geteuid().as_raw() == 0;
    let rules = list(&["local: /usr/lib mountpoint: /usr/lib opts: ro"]);
    let ours = exec_pm("/bin/true", vec![], "", "/cellblock/test", &rules);
    let theirs = exec_pm_as("/bin/true", vec![], "", "/cellblock/test", &rules, is_root);
    match (ours, theirs) {
        (Ok(a), Ok(b)) => assert_eq!(a.stage(), b.stage()),
        (Err(a), Err(b)) => assert_eq!(a, b),
        (a, b) => panic!("{:?} against {:?}", a, b),
    }
}

#[test]
fn launch_at_the_live_root_is_prepared_for_every_user() {
    let l = exec_pm("/bin/true", vec![], "nobody", "/", &list(&["nonsense"])).unwrap();
    assert_eq!(l.stage(), Stage::Ready);
}

#[test]
fn no_user_means_no_privilege_drop() {
    assert_eq!(drop_privs(""), None);
}

#[test]
fn privilege_drop_begins_with_the_lookup_of_the_user() {
    assert_eq!(drop_privs("nobody"), Some(Action::LookupUser("nobody".to_string())));
}

#[test]
fn jail_without_root_identity_is_refused_before_anything_else() {
    let r = exec_pm_as("/bin/true", vec![], "", "/cellblock/test", &list(&["nonsense"]), false);
    assert_eq!(r.unwrap_err(), LaunchError::NotRoot);
}

#[test]
fn live_root_needs_no_root_identity() {
    let r = exec_pm_as("/bin/true", vec![], "", "/", &list(&["nonsense"]), false);
    assert_eq!(r.unwrap().stage(), Stage::Ready);
}

#[test]
fn malformed_directive_is_a_configuration_error() {
    let r = exec_pm_as("/bin/true", vec![], "", "/jail", &list(&["local: /a mountpoint:"]), true);
    assert_eq!(
        r.unwrap_err(),
        LaunchError::Config(ConfigError::BadDirective {
            index: 0,
            error: ParseError::MissingTarget
        })
    );
}

#[test]
fn unsupported_option_is_a_configuration_error() {
    let r = exec_pm_as(
        "/bin/true",
        vec![],
        "",
        "/jail",
        &list(&["local: /a mountpoint: /b opts: ro,noatime"]),
        true,
    );
    assert_eq!(
        r.unwrap_err(),
        LaunchError::Config(ConfigError::UnsupportedOption {
            index: 0,
            token: "noatime".to_string()
        })
    );
}

#[test]
fn exit_status_of_the_parent_is_that_of_the_child() {
    let mut l = exec_pm("/bin/sh", list(&["-c", "exit 7"]), "", "/", &vec![]).unwrap();
    let mut m = Machine::new(false);
    m.child_status = 7;
    assert_eq!(m.run(&mut l), exit(7, None, &[]));
    assert_eq!(m.log, vec![Action::Fork, Action::Wait, exit(7, None, &[])]);
}

#[test]
fn no_isolation_at_the_live_root_in_the_parent() {
    let mut l = launcher("nobody", "/", &["local: /usr/lib mountpoint: /usr/lib opts: ro"]);
    let mut m = Machine::new(false);
    let before = m.table.clone();
    assert_eq!(m.run(&mut l), exit(0, None, &[]));
    assert!(!m.touched_mounts());
    assert_eq!(m.table, before);
}

#[test]
fn no_isolation_at_the_live_root_in_the_child() {
    let mut l = launcher("nobody", "/", &["local: /usr/lib mountpoint: /usr/lib opts: ro"]);
    let mut m = Machine::new(true);
    assert_eq!(m.run(&mut l), exec_action());
    assert!(!m.touched_mounts());
    assert_eq!(
        m.log,
        vec![
            Action::Fork,
            Action::LookupUser("nobody".to_string()),
            Action::SetUid(65534),
            exec_action()
        ]
    );
}

#[test]
fn child_at_the_live_root_without_user_executes_at_once() {
    let mut l = launcher("", "/", &[]);
    let mut m = Machine::new(true);
    assert_eq!(m.run(&mut l), exec_action());
    assert_eq!(m.log, vec![Action::Fork, exec_action()]);
}

#[test]
fn child_changes_root_then_drops_privileges_then_executes() {
    let mut l = launcher("nobody", "/cellblock/test", &[]);
    let mut m = Machine::new(true);
    assert_eq!(m.run(&mut l), exec_action());
    let after_fork: Vec<Action> = m.log.iter().skip_while(|a| **a != Action::Fork).cloned().collect();
    assert_eq!(
        after_fork,
        vec![
            Action::Fork,
            Action::Chroot("/cellblock/test".to_string()),
            Action::LookupUser("nobody".to_string()),
            Action::SetUid(65534),
            exec_action()
        ]
    );
}

#[test]
fn every_mount_comes_before_the_fork() {
    let mut l = launcher("", "/cellblock/test", &["local: /usr/lib mountpoint: /usr/lib opts: ro"]);
    let mut m = Machine::new(true);
    m.run(&mut l);
    let fork = m.log.iter().position(|a| *a == Action::Fork).unwrap();
    assert_eq!(fork, 7);
    assert!(m.log[..fork].iter().all(|a| matches!(a, Action::Mount(_))));
    assert!(m.log[fork..].iter().all(|a| !matches!(a, Action::Mount(_))));
}

#[test]
fn read_only_directive_is_mounted_and_torn_down_again() {
    let mut l = launcher("", "/cellblock/test", &["local: /usr/lib mountpoint: /usr/lib opts: ro"]);
    let mut m = Machine::new(false);
    let before = m.table.clone();
    let mut action = l.start();
    while action != Action::Fork {
        let event = m.perform(&action);
        action = l.step(event);
    }
    assert!(m.log.contains(&Action::Mount(MountOp::Bind {
        source: "/usr/lib".to_string(),
        target: "/cellblock/test/usr/lib".to_string()
    })));
    assert!(m.log.contains(&Action::Mount(MountOp::Remount {
        target: "/cellblock/test/usr/lib".to_string(),
        options: MountOptions { rdonly: true, ..MountOptions::new() }
    })));
    assert!(m.table.contains(&"/cellblock/test/usr/lib".to_string()));
    assert!(m.table.contains(&"/cellblock/test/dev/pts".to_string()));

    let mut action = l.step(m.perform(&Action::Fork));
    let end = loop {
        match action {
            Action::Exit(_) => break action,
            _ => {
                let event = m.perform(&action);
                action = l.step(event);
            }
        }
    };
    assert_eq!(end, exit(0, None, &[]));
    assert!(!m.table.iter().any(|p| p.starts_with("/cellblock/test/usr/lib")));
    assert_eq!(m.table, before);
}

#[test]
fn teardown_clears_proc_dev_sys_and_then_the_targets_in_reverse() {
    let mut l = launcher(
        "",
        "/j",
        &["local: /a mountpoint: /a", "local: /b mountpoint: /a/b opts: default"],
    );
    let mut m = Machine::new(false);
    assert_eq!(m.run(&mut l), exit(0, None, &[]));
    let wait = m.log.iter().position(|a| *a == Action::Wait).unwrap();
    assert_eq!(
        m.log[wait + 1..].to_vec(),
        vec![
            Action::ReadMounts,
            unmount("/j/proc", true),
            Action::ReadMounts,
            unmount("/j/dev/pts", true),
            unmount("/j/dev", true),
            Action::ReadMounts,
            unmount("/j/sys", true),
            unmount("/j/a/b", false),
            unmount("/j/a", false),
            exit(0, None, &[]),
        ]
    );
}

#[test]
fn no_unmount_comes_before_the_child_has_exited() {
    let mut l = launcher("", "/j", &["local: /a mountpoint: /a"]);
    let mut m = Machine::new(false);
    m.run(&mut l);
    let wait = m.log.iter().position(|a| *a == Action::Wait).unwrap();
    assert!(m.log[..wait]
        .iter()
        .all(|a| !matches!(a, Action::Unmount { .. } | Action::ReadMounts)));
}

#[test]
fn teardown_runs_whatever_the_status_of_the_child() {
    let mut l = launcher("", "/j", &["local: /a mountpoint: /a"]);
    let mut m = Machine::new(false);
    m.child_status = 3;
    let before = m.table.clone();
    assert_eq!(m.run(&mut l), exit(3, None, &[]));
    assert_eq!(m.table, before);
}

#[test]
fn failed_unmounts_are_reported_and_do_not_stop_the_teardown() {
    let mut l = launcher(
        "",
        "/j",
        &["local: /a mountpoint: /a", "local: /b mountpoint: /b"],
    );
    let mut m = Machine::new(false);
    m.child_status = 5;
    m.refuse = vec![unmount("/j/dev/pts", true), unmount("/j/b", false)];
    assert_eq!(m.run(&mut l), exit(5, None, &["/j/dev/pts", "/j/dev", "/j/b"]));
    assert!(m.log.contains(&unmount("/j/sys", true)));
    assert!(m.log.contains(&unmount("/j/a", false)));
    assert_eq!(m.table, list(&["/", "/proc", "/dev", "/dev/pts", "/sys", "/j/dev", "/j/dev/pts", "/j/b"]));
}

#[test]
fn unreadable_mount_table_leaves_the_subtree_and_goes_on() {
    let mut l = launcher("", "/j", &[]);
    let mut a = l.start();
    for _ in 0..5 {
        assert!(matches!(a, Action::Mount(_)));
        a = l.step(Event::Done);
    }
    assert_eq!(a, Action::Fork);
    assert_eq!(l.step(Event::Parent), Action::Wait);
    assert_eq!(l.step(Event::Exited(0)), Action::ReadMounts);
    assert_eq!(l.step(Event::Failed), Action::ReadMounts);
    assert_eq!(l.stage(), Stage::Listing(1));
    assert_eq!(l.step(Event::Mounts(list(&["/j/dev"]))), unmount("/j/dev", true));
    assert_eq!(l.step(Event::Done), Action::ReadMounts);
    assert_eq!(l.step(Event::Mounts(vec![])), exit(0, None, &["/j/proc"]));
    assert_eq!(l.stage(), Stage::Finished);
}

#[test]
fn first_failing_mount_ends_the_launch_and_is_named() {
    let mut l = launcher("", "/j", &["local: /a mountpoint: /a opts: ro", "local: /b mountpoint: /b"]);
    let mut m = Machine::new(false);
    let failing = MountOp::Remount {
        target: "/j/a".to_string(),
        options: MountOptions { rdonly: true, ..MountOptions::new() },
    };
    m.refuse = vec![Action::Mount(failing.clone())];
    assert_eq!(m.run(&mut l), exit(FAILED, Some(Fault::Mount(failing)), &[]));
    assert_eq!(m.log.len(), 8);
    assert!(!m.log.contains(&Action::Fork));
    assert!(!m.log.iter().any(|a| matches!(a, Action::Mount(MountOp::Bind { source, .. }) if source == "/b")));
}

#[test]
fn failing_special_mount_names_its_target() {
    for (refused, target) in [(0, "/j/proc"), (1, "/j/dev"), (2, "/j/dev"), (3, "/j/sys"), (4, "/j/sys")] {
        let mut l = launcher("", "/j", &[]);
        let mut a = l.start();
        for _ in 0..refused {
            a = l.step(Event::Done);
        }
        let op = match a {
            Action::Mount(op) => op,
            other => panic!("{:?}", other),
        };
        let named = match &op {
            MountOp::Bind { target, .. }
            | MountOp::RecursiveBind { target, .. }
            | MountOp::MakeSlave { target }
            | MountOp::Remount { target, .. } => target.clone(),
        };
        assert_eq!(named, target);
        assert_eq!(l.step(Event::Failed), exit(FAILED, Some(Fault::Mount(op)), &[]));
    }
}

#[test]
fn failed_fork_ends_the_launch() {
    let mut l = launcher("", "/", &[]);
    assert_eq!(l.start(), Action::Fork);
    assert_eq!(l.step(Event::Failed), exit(FAILED, Some(Fault::Fork), &[]));
}

#[test]
fn child_that_cannot_change_root_exits_with_failure() {
    let mut l = launcher("nobody", "/j", &[]);
    let mut m = Machine::new(true);
    m.refuse = vec![Action::Chroot("/j".to_string())];
    assert_eq!(m.run(&mut l), exit(FAILED, Some(Fault::Chroot), &[]));
    assert!(!m.log.iter().any(|a| matches!(a, Action::Exec { .. } | Action::SetUid(_))));
}

#[test]
fn child_with_unknown_user_exits_with_failure() {
    let mut l = launcher("nosuchuser", "/", &[]);
    let mut m = Machine::new(true);
    assert_eq!(m.run(&mut l), exit(FAILED, Some(Fault::UnknownUser), &[]));
    assert!(!m.log.iter().any(|a| matches!(a, Action::Exec { .. } | Action::SetUid(_))));
}

#[test]
fn child_that_cannot_switch_identity_exits_with_failure() {
    let mut l = launcher("nobody", "/", &[]);
    let mut m = Machine::new(true);
    m.refuse = vec![Action::SetUid(65534)];
    assert_eq!(m.run(&mut l), exit(FAILED, Some(Fault::SetUid), &[]));
    assert!(!m.log.iter().any(|a| matches!(a, Action::Exec { .. })));
}

#[test]
fn child_whose_exec_returns_exits_with_failure() {
    let mut l = launcher("", "/", &[]);
    assert_eq!(l.start(), Action::Fork);
    assert_eq!(l.step(Event::Child), exec_action());
    assert_eq!(l.stage(), Stage::Executing);
    assert_eq!(l.step(Event::Failed), exit(FAILED, Some(Fault::Exec), &[]));
    assert_ne!(FAILED, 0);
}

#[test]
fn child_ended_by_a_signal_gives_the_status_of_a_shell() {
    for (signal, status) in [(9, 137), (15, 143), (0, 128), (127, 255), (128, FAILED), (-1, FAILED)] {
        let mut l = launcher("", "/", &[]);
        assert_eq!(l.start(), Action::Fork);
        assert_eq!(l.step(Event::Parent), Action::Wait);
        assert_eq!(l.step(Event::Killed(signal)), exit(status, None, &[]));
    }
}

#[test]
fn failed_wait_still_tears_down() {
    let mut l = launcher("", "/j", &[]);
    let mut a = l.start();
    while a != Action::Fork {
        a = l.step(Event::Done);
    }
    assert_eq!(l.step(Event::Parent), Action::Wait);
    assert_eq!(l.step(Event::Failed), Action::ReadMounts);
    assert_eq!(l.step(Event::Mounts(vec![])), Action::ReadMounts);
    assert_eq!(l.step(Event::Mounts(vec![])), Action::ReadMounts);
    assert_eq!(l.step(Event::Mounts(vec![])), exit(FAILED, Some(Fault::Wait), &[]));
}

#[test]
fn event_that_answers_nothing_ends_the_launch() {
    let mut l = launcher("", "/", &[]);
    assert_eq!(l.step(Event::Done), exit(FAILED, Some(Fault::Protocol), &[]));
    let mut l = launcher("", "/", &[]);
    assert_eq!(l.start(), Action::Fork);
    assert_eq!(l.step(Event::Mounts(vec![])), exit(FAILED, Some(Fault::Protocol), &[]));
    assert_eq!(l.step(Event::Done), exit(FAILED, Some(Fault::Protocol), &[]));
    assert_eq!(l.start(), exit(FAILED, Some(Fault::Protocol), &[]));
}

#[test]
fn faults_name_their_stage() {
    let op = MountOp::MakeSlave { target: "/j/dev".to_string() };
    assert_eq!(Fault::Mount(op).stage(), "mount setup");
    assert_eq!(Fault::Fork.stage(), "fork");
    assert_eq!(Fault::Chroot.stage(), "chroot");
    assert_eq!(Fault::UnknownUser.stage(), "privilege drop");
    assert_eq!(Fault::SetUid.stage(), "privilege drop");
    assert_eq!(Fault::Exec.stage(), "exec");
    assert_eq!(Fault::Wait.stage(), "wait");
    assert_eq!(Fault::Protocol.stage(), "protocol");
    assert_eq!(LaunchError::NotRoot.stage(), "privilege check");
    let e = LaunchError::Config(ConfigError::BadDirective {
        index: 0,
        error: ParseError::MissingLocal,
    });
    assert_eq!(e.stage(), "configuration");
}

#[test]
fn refused_launch_exits_with_failure() {
    assert_eq!(LaunchError::NotRoot.exit_code(), FAILED);
    assert_ne!(LaunchError::NotRoot.exit_code(), 0);
}

#[test]
fn stages_follow_the_actions() {
    let mut l = launcher("nobody", "/j", &["local: /a mountpoint: /a"]);
    assert_eq!(l.stage(), Stage::Ready);
    l.start();
    assert_eq!(l.stage(), Stage::Mounting(0));
    for i in 1..7 {
        l.step(Event::Done);
        assert_eq!(l.stage(), Stage::Mounting(i));
    }
    assert_eq!(l.step(Event::Done), Action::Fork);
    assert_eq!(l.stage(), Stage::Forking);
    l.step(Event::Child);
    assert_eq!(l.stage(), Stage::Chrooting);
    l.step(Event::Done);
    assert_eq!(l.stage(), Stage::LookingUp);
    l.step(Event::Uid(99));
    assert_eq!(l.stage(), Stage::SwitchingUser);
    l.step(Event::Done);
    assert_eq!(l.stage(), Stage::Executing);
}
