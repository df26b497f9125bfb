use safe_package::directive::ParseError;
use safe_package::mounts::{
    bind_mounts, is_live_root, mount_dev_proc_sys, rbind_make_rslave, ConfigError, MountOp,
};
use safe_package::options::MountOptions;

fn lines(list: &[&str]) -> Vec<String> {
    list.iter().map(|t| t.to_string()).collect()
}

fn bind(source: &str, target: &str) -> MountOp {
    MountOp::Bind { source: source.to_string(), target: target.to_string() }
}

fn rbind(source: &str, target: &str) -> MountOp {
    MountOp::RecursiveBind { source: source.to_string(), target: target.to_string() }
}

fn slave(target: &str) -> MountOp {
    MountOp::MakeSlave { target: target.to_string() }
}

fn remount(target: &str, options: MountOptions) -> MountOp {
    MountOp::Remount { target: target.to_string(), options }
}

fn special(root: &str) -> Vec<MountOp> {
    vec![
        bind("/proc", &format!("{}/proc", root)),
        rbind("/dev", &format!("{}/dev", root)),
        slave(&format!("{}/dev", root)),
        rbind("/sys", &format!("{}/sys", root)),
        slave(&format!("{}/sys", root)),
    ]
}

#[test]
fn test_bind_roots() {
    let rule = String::from("local: /usr/lib mountpoint: /usr/lib opts: ro");
    assert!(bind_mounts(&[rule].to_vec(), &"/cellblock/piptest".to_owned()).is_ok());
}

#[test]
fn only_the_single_slash_is_the_live_root() {
    assert!(is_live_root("/"));
    for root in ["", "//", "/.", "/jail", " /", "/ "] {
        assert!(!is_live_root(root), "{:?}", root);
    }
}

#[test]
fn subtree_is_bound_recursively_and_then_made_slave_in_a_call_of_its_own() {
    assert_eq!(
        rbind_make_rslave("/jail", "/dev"),
        vec![rbind("/dev", "/jail/dev"), slave("/jail/dev")]
    );
}

#[test]
fn special_filesystems_are_proc_then_dev_then_sys() {
    assert_eq!(mount_dev_proc_sys("/cellblock/test"), special("/cellblock/test"));
}

#[test]
fn proc_is_a_plain_bind() {
    assert_eq!(mount_dev_proc_sys("/j")[0], bind("/proc", "/j/proc"));
}

#[test]
fn live_root_gives_an_empty_plan_whatever_the_lines_hold() {
    assert_eq!(bind_mounts(&lines(&[]), "/").unwrap(), vec![]);
    assert_eq!(bind_mounts(&lines(&["local: /a mountpoint: /b"]), "/").unwrap(), vec![]);
    assert_eq!(bind_mounts(&lines(&["not a directive"]), "/").unwrap(), vec![]);
}

#[test]
fn jail_without_directives_mounts_the_special_filesystems_only() {
    assert_eq!(bind_mounts(&lines(&[]), "/jail").unwrap(), special("/jail"));
}

#[test]
fn read_only_directive_is_bound_and_then_remounted_read_only() {
    let plan = bind_mounts(
        &lines(&["local: /usr/lib mountpoint: /usr/lib opts: ro"]),
        "/cellblock/test",
    )
    .unwrap();
    let mut expected = special("/cellblock/test");
    expected.push(bind("/usr/lib", "/cellblock/test/usr/lib"));
    expected.push(remount(
        "/cellblock/test/usr/lib",
        MountOptions { rdonly: true, ..MountOptions::new() },
    ));
    assert_eq!(plan, expected);
}

#[test]
fn default_option_is_remounted_with_the_safe_baseline() {
    let plan = bind_mounts(&lines(&["local: /src mountpoint: /dst opts: default"]), "/jail").unwrap();
    assert_eq!(
        plan[6],
        remount(
            "/jail/dst",
            MountOptions {
                rdonly: true,
                nosuid: true,
                noexec: true,
                synchronous: true,
                nodiratime: false,
                nodev: false,
                dirsync: false,
                mandlock: false,
                relatime: false,
                strictatime: false,
            }
        )
    );
}

#[test]
fn directive_without_options_is_still_remounted() {
    let plan = bind_mounts(&lines(&["local: /src mountpoint: /dst"]), "/jail").unwrap();
    assert_eq!(plan.len(), 7);
    assert_eq!(plan[5], bind("/src", "/jail/dst"));
    assert_eq!(plan[6], remount("/jail/dst", MountOptions::new()));
}

#[test]
fn directives_are_applied_in_the_order_supplied() {
    let plan = bind_mounts(
        &lines(&[
            "local: /data mountpoint: /data opts: rw",
            "local: /data/cache mountpoint: /data/cache opts: noexec",
            "local: /opt mountpoint: /data opts: ro",
        ]),
        "/jail",
    )
    .unwrap();
    let targets: Vec<MountOp> = plan[5..].to_vec();
    assert_eq!(
        targets,
        vec![
            bind("/data", "/jail/data"),
            remount("/jail/data", MountOptions::new()),
            bind("/data/cache", "/jail/data/cache"),
            remount("/jail/data/cache", MountOptions { noexec: true, ..MountOptions::new() }),
            bind("/opt", "/jail/data"),
            remount("/jail/data", MountOptions { rdonly: true, ..MountOptions::new() }),
        ]
    );
}

#[test]
fn escaped_paths_are_decoded_in_the_plan() {
    let plan =
        bind_mounts(&lines(&["local: /my\\040docs mountpoint: /mnt/my\\040docs"]), "/jail").unwrap();
    assert_eq!(plan[5], bind("/my docs", "/jail/mnt/my docs"));
}

#[test]
fn first_line_that_is_no_directive_is_named() {
    let e = bind_mounts(
        &lines(&["local: /a mountpoint: /a", "local: /b", "nonsense"]),
        "/jail",
    )
    .unwrap_err();
    assert_eq!(e, ConfigError::BadDirective { index: 1, error: ParseError::MissingMountpoint });
}

#[test]
fn first_unsupported_option_is_named() {
    let e = bind_mounts(
        &lines(&["local: /a mountpoint: /a opts: ro", "local: /b mountpoint: /b opts: ro,noatime,bogus"]),
        "/jail",
    )
    .unwrap_err();
    assert_eq!(e, ConfigError::UnsupportedOption { index: 1, token: "noatime".to_string() });
}

#[test]
fn earlier_fault_is_reported_before_a_later_one() {
    let e = bind_mounts(
        &lines(&["local: /a mountpoint: /a opts: bogus", "nonsense"]),
        "/jail",
    )
    .unwrap_err();
    assert_eq!(e, ConfigError::UnsupportedOption { index: 0, token: "bogus".to_string() });
}

#[test]
fn duplicate_keeps_the_operation() {
    for op in special("/jail") {
        assert_eq!(op.duplicate(), op);
    }
    let op = remount("/x", MountOptions { nodev: true, ..MountOptions::new() });
    assert_eq!(op.duplicate(), op);
}
