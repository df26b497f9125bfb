//! The process orchestrator: the order in which a launch mounts, forks,
//! confines, executes, waits and tears down.
//!
//! The launcher is a state machine. It never acts itself: `start` and `step`
//! hand out one `Action` at a time, the caller performs it and reports what
//! came of it as an `Event`. Every decision of the launch is taken here, in
//! `LauncherView::step`: which action follows which event, what ends the
//! launch, and with which status the process exits.

use vstd::prelude::*;
use crate::mounts::{
    all_valid, bind_mounts, first_fault, is_live_root, jail_plan, live_root, ConfigError, MountOp,
    MountOpView,
};
use crate::text::copy_strings;
use crate::unmount::{
    below, detach_order, lemma_detach_order, recursive_umount, rule_targets, special_subtrees,
    unbind_mounts,
};

verus! {

/// Why no launch can begin.
#[derive(Clone, Debug, PartialEq, Eq)]
pub enum LaunchError {
    /// A jail was asked for and the process does not run as root.
    NotRoot,
    /// The directive lines are at fault.
    Config(ConfigError),
}

/// The step of a launch at which something went wrong.
#[derive(Clone, Debug, PartialEq, Eq)]
pub enum Fault {
    /// Mount setup: this operation failed.
    Mount(MountOp),
    /// The process could not be duplicated.
    Fork,
    /// The root could not be changed.
    Chroot,
    /// Privilege drop: there is no user of the name given.
    UnknownUser,
    /// Privilege drop: the identity could not be switched.
    SetUid,
    /// The program could not be executed.
    Exec,
    /// The child could not be waited for.
    Wait,
    /// The caller reported an event that answers no action handed out.
    Protocol,
}

/// A fault as plain values.
pub enum FaultView {
    Mount(MountOpView),
    Fork,
    Chroot,
    UnknownUser,
    SetUid,
    Exec,
    Wait,
    Protocol,
}

impl View for Fault {
    type V = FaultView;

    open spec fn view(&self) -> FaultView {
        match self {
            Fault::Mount(op) => FaultView::Mount(op@),
            Fault::Fork => FaultView::Fork,
            Fault::Chroot => FaultView::Chroot,
            Fault::UnknownUser => FaultView::UnknownUser,
            Fault::SetUid => FaultView::SetUid,
            Fault::Exec => FaultView::Exec,
            Fault::Wait => FaultView::Wait,
            Fault::Protocol => FaultView::Protocol,
        }
    }
}

impl FaultView {
    /// The name of the stage at which the fault arose, as diagnostics give it.
    pub open spec fn stage(self) -> Seq<char> {
        match self {
            FaultView::Mount(_) => "mount setup"@,
            FaultView::Fork => "fork"@,
            FaultView::Chroot => "chroot"@,
            FaultView::UnknownUser | FaultView::SetUid => "privilege drop"@,
            FaultView::Exec => "exec"@,
            FaultView::Wait => "wait"@,
            FaultView::Protocol => "protocol"@,
        }
    }
}

impl Fault {
    /// The name of the stage at which the fault arose, as diagnostics give it.
    pub fn stage(&self) -> (name: &'static str)
        ensures
            name@ == self@.stage(),
    {
        match self {
            Fault::Mount(_) => "mount setup",
            Fault::Fork => "fork",
            Fault::Chroot => "chroot",
            Fault::UnknownUser | Fault::SetUid => "privilege drop",
            Fault::Exec => "exec",
            Fault::Wait => "wait",
            Fault::Protocol => "protocol",
        }
    }
}

impl LaunchError {
    /// The name of the stage that refused the launch, as diagnostics give it.
    pub fn stage(&self) -> (name: &'static str)
        ensures
            name@ == match self {
                LaunchError::NotRoot => "privilege check"@,
                LaunchError::Config(_) => "configuration"@,
            },
    {
        match self {
            LaunchError::NotRoot => "privilege check",
            LaunchError::Config(_) => "configuration",
        }
    }

    /// The exit status of a process whose launch was refused: not zero.
    pub fn exit_code(&self) -> (code: i32)
        ensures
            code == FAILED,
    {
        FAILED
    }
}

/// How a process of the launch ends.
#[derive(Clone, Debug, PartialEq, Eq)]
pub struct Outcome {
    /// The exit status of the process.
    pub code: i32,
    /// What went wrong, where the launch failed.
    pub fault: Option<Fault>,
    /// The mount points that the teardown could not detach.
    pub residue: Vec<String>,
}

/// An outcome as plain values.
pub struct OutcomeView {
    pub code: i32,
    pub fault: Option<FaultView>,
    pub residue: Seq<Seq<char>>,
}

impl View for Outcome {
    type V = OutcomeView;

    open spec fn view(&self) -> OutcomeView {
        OutcomeView {
            code: self.code,
            fault: match self.fault {
                Some(f) => Some(f@),
                None => None,
            },
            residue: self.residue.deep_view(),
        }
    }
}

/// What the caller is to do next.
#[derive(Clone, Debug, PartialEq, Eq)]
pub enum Action {
    /// Perform one mount operation.
    Mount(MountOp),
    /// Duplicate the process.
    Fork,
    /// Change the root of the process to this path and its working directory
    /// to the new root.
    Chroot(String),
    /// Find the numeric id of the user of this name.
    LookupUser(String),
    /// Switch the identity of the process to this user id.
    SetUid(u32),
    /// Replace the process image by the program at `path`, run with `argv`.
    Exec { path: String, argv: Vec<String> },
    /// Wait until the child has terminated.
    Wait,
    /// Read the mount table afresh.
    ReadMounts,
    /// Detach what is mounted at `target`; with `force`, even while it is in
    /// use.
    Unmount { target: String, force: bool },
    /// End the process.
    Exit(Outcome),
}

/// An action as plain values.
pub enum ActionView {
    Mount(MountOpView),
    Fork,
    Chroot(Seq<char>),
    LookupUser(Seq<char>),
    SetUid(u32),
    Exec { path: Seq<char>, argv: Seq<Seq<char>> },
    Wait,
    ReadMounts,
    Unmount { target: Seq<char>, force: bool },
    Exit(OutcomeView),
}

impl View for Action {
    type V = ActionView;

    open spec fn view(&self) -> ActionView {
        match self {
            Action::Mount(op) => ActionView::Mount(op@),
            Action::Fork => ActionView::Fork,
            Action::Chroot(path) => ActionView::Chroot(path@),
            Action::LookupUser(name) => ActionView::LookupUser(name@),
            Action::SetUid(uid) => ActionView::SetUid(*uid),
            Action::Exec { path, argv } => ActionView::Exec {
                path: path@,
                argv: argv.deep_view(),
            },
            Action::Wait => ActionView::Wait,
            Action::ReadMounts => ActionView::ReadMounts,
            Action::Unmount { target, force } => ActionView::Unmount {
                target: target@,
                force: *force,
            },
            Action::Exit(outcome) => ActionView::Exit(outcome@),
        }
    }
}

/// What came of the action handed out last.
#[derive(Clone, Debug, PartialEq, Eq)]
pub enum Event {
    /// The action succeeded.
    Done,
    /// The action failed.
    Failed,
    /// `Fork` succeeded, and this is the parent.
    Parent,
    /// `Fork` succeeded, and this is the child.
    Child,
    /// `LookupUser` found the user, with this id.
    Uid(u32),
    /// `Wait` returned: the child has terminated with this status.
    Exited(i32),
    /// `Wait` returned: the child was ended by the signal of this number.
    Killed(i32),
    /// `ReadMounts` returned the mount points of the mount table.
    Mounts(Vec<String>),
}

/// An event as plain values.
pub enum EventView {
    Done,
    Failed,
    Parent,
    Child,
    Uid(u32),
    Exited(i32),
    Killed(i32),
    Mounts(Seq<Seq<char>>),
}

impl View for Event {
    type V = EventView;

    open spec fn view(&self) -> EventView {
        match self {
            Event::Done => EventView::Done,
            Event::Failed => EventView::Failed,
            Event::Parent => EventView::Parent,
            Event::Child => EventView::Child,
            Event::Uid(uid) => EventView::Uid(*uid),
            Event::Exited(status) => EventView::Exited(*status),
            Event::Killed(signal) => EventView::Killed(*signal),
            Event::Mounts(mounts) => EventView::Mounts(mounts.deep_view()),
        }
    }
}

/// Where a launch stands: which action is out, waiting for its event.
#[derive(Clone, Copy, Debug, PartialEq, Eq, Structural)]
pub enum Stage {
    /// Nothing was handed out yet.
    Ready,
    /// The mount operation of this index in the plan.
    Mounting(usize),
    /// `Fork`.
    Forking,
    /// `Chroot`, in the child.
    Chrooting,
    /// `LookupUser`, in the child.
    LookingUp,
    /// `SetUid`, in the child.
    SwitchingUser,
    /// `Exec`, in the child.
    Executing,
    /// `Wait`, in the parent.
    Waiting,
    /// `ReadMounts` for the subtree of this index.
    Listing(usize),
    /// The forced unmount, below the subtree of the first index, of the mount
    /// point of the second index in the queue.
    Detaching(usize, usize),
    /// The unmount of the target of this index.
    Unbinding(usize),
    /// `Exit`.
    Finished,
}

impl Stage {
    /// The stages that only the child of the fork goes through.
    pub open spec fn in_child(self) -> bool {
        self is Chrooting || self is LookingUp || self is SwitchingUser || self is Executing
    }

    /// The stages of the teardown, which only the parent goes through.
    pub open spec fn in_teardown(self) -> bool {
        self is Listing || self is Detaching || self is Unbinding
    }
}

/// The exit status of a launch that failed by itself.
pub const FAILED: i32 = 1;

/// The exit status that stands for a child ended by a signal: 128 more than
/// the number of the signal, as a shell reports it.
pub open spec fn signal_status(signal: i32) -> i32 {
    if 0 <= signal < 128 {
        (128 + signal) as i32
    } else {
        FAILED
    }
}

/// The state of a launch, as plain values: the model on which the rules of
/// the launch are stated.
pub struct LauncherView {
    /// The program to execute, and its arguments.
    pub path: Seq<char>,
    pub args: Seq<Seq<char>>,
    /// The user to run it as; empty for "whoever we are".
    pub user: Seq<char>,
    /// The jail root; `/` for no jail.
    pub root: Seq<char>,
    /// The mount operations that build the jail.
    pub plan: Seq<MountOpView>,
    /// The subtrees to clear at teardown, then the targets to unmount.
    pub subtrees: Seq<Seq<char>>,
    pub targets: Seq<Seq<char>>,
    pub stage: Stage,
    /// The mount points to detach below the subtree that is being cleared.
    pub queue: Seq<Seq<char>>,
    /// The exit status of the child, once it has terminated.
    pub status: i32,
    /// Whether waiting for the child failed.
    pub wait_failed: bool,
    /// The mount points that could not be detached so far.
    pub residue: Seq<Seq<char>>,
}

impl LauncherView {
    /// The launch before its first action.
    pub open spec fn initial(
        path: Seq<char>,
        args: Seq<Seq<char>>,
        user: Seq<char>,
        root: Seq<char>,
        rules: Seq<Seq<char>>,
    ) -> LauncherView {
        LauncherView {
            path,
            args,
            user,
            root,
            plan: jail_plan(rules, root),
            subtrees: if root == live_root() {
                Seq::empty()
            } else {
                special_subtrees(root)
            },
            targets: if root == live_root() {
                Seq::empty()
            } else {
                rule_targets(rules, root).reverse()
            },
            stage: Stage::Ready,
            queue: Seq::empty(),
            status: 0,
            wait_failed: false,
            residue: Seq::empty(),
        }
    }

    /// The cursors of the stage point into their lists.
    pub open spec fn wf(self) -> bool {
        &&& self.plan.len() <= usize::MAX
        &&& self.subtrees.len() <= usize::MAX
        &&& self.targets.len() <= usize::MAX
        &&& self.queue.len() <= usize::MAX
        &&& match self.stage {
            Stage::Mounting(i) => i < self.plan.len(),
            Stage::Listing(k) => k < self.subtrees.len(),
            Stage::Detaching(k, q) => k < self.subtrees.len() && q < self.queue.len(),
            Stage::Unbinding(t) => t < self.targets.len(),
            _ => true,
        }
    }

    /// This state at another stage.
    pub open spec fn at(self, stage: Stage) -> LauncherView {
        LauncherView { stage, ..self }
    }

    /// The process ends with this status.
    pub open spec fn exit(self, code: i32, fault: Option<FaultView>) -> (
        LauncherView,
        ActionView,
    ) {
        (
            self.at(Stage::Finished),
            ActionView::Exit(OutcomeView { code, fault, residue: self.residue }),
        )
    }

    /// The launch fails: the process ends with a status that is not zero.
    pub open spec fn fail(self, fault: FaultView) -> (LauncherView, ActionView) {
        self.exit(FAILED, Some(fault))
    }

    /// The mount operations from index `i` on; after the last of them, the
    /// fork.
    pub open spec fn mount_from(self, i: int) -> (LauncherView, ActionView) {
        if 0 <= i < self.plan.len() {
            (self.at(Stage::Mounting(i as usize)), ActionView::Mount(self.plan[i]))
        } else {
            (self.at(Stage::Forking), ActionView::Fork)
        }
    }

    /// The child's first action: into the jail, where there is one.
    pub open spec fn confine(self) -> (LauncherView, ActionView) {
        if self.root != live_root() {
            (self.at(Stage::Chrooting), ActionView::Chroot(self.root))
        } else {
            self.drop_privileges()
        }
    }

    /// The child gives up its identity, where a user is named.
    pub open spec fn drop_privileges(self) -> (LauncherView, ActionView) {
        if self.user.len() > 0 {
            (self.at(Stage::LookingUp), ActionView::LookupUser(self.user))
        } else {
            self.execute()
        }
    }

    /// The child becomes the program. The argument vector begins with the
    /// program's own path.
    pub open spec fn execute(self) -> (LauncherView, ActionView) {
        (
            self.at(Stage::Executing),
            ActionView::Exec { path: self.path, argv: seq![self.path] + self.args },
        )
    }

    /// The teardown from the subtree of index `k` on.
    pub open spec fn clear_from(self, k: int) -> (LauncherView, ActionView) {
        if 0 <= k < self.subtrees.len() {
            (self.at(Stage::Listing(k as usize)), ActionView::ReadMounts)
        } else {
            self.unbind_from(0)
        }
    }

    /// The teardown from the mount point of index `q` in the queue on, below
    /// the subtree of index `k`.
    pub open spec fn detach_from(self, k: int, q: int) -> (LauncherView, ActionView) {
        if 0 <= q < self.queue.len() {
            (
                self.at(Stage::Detaching(k as usize, q as usize)),
                ActionView::Unmount { target: self.queue[q], force: true },
            )
        } else {
            self.clear_from(k + 1)
        }
    }

    /// The teardown from the target of index `t` on; after the last target
    /// the parent exits with the status of the child.
    pub open spec fn unbind_from(self, t: int) -> (LauncherView, ActionView) {
        if 0 <= t < self.targets.len() {
            (
                self.at(Stage::Unbinding(t as usize)),
                ActionView::Unmount { target: self.targets[t], force: false },
            )
        } else {
            self.exit(
                self.status,
                if self.wait_failed {
                    Some(FaultView::Wait)
                } else {
                    None
                },
            )
        }
    }

    /// This state with one more mount point that could not be detached.
    pub open spec fn leaving(self, path: Seq<char>) -> LauncherView {
        LauncherView { residue: self.residue.push(path), ..self }
    }

    /// The first action of a launch.
    pub open spec fn start(self) -> (LauncherView, ActionView) {
        if self.stage is Ready {
            self.mount_from(0)
        } else {
            self.fail(FaultView::Protocol)
        }
    }

    /// The rule of the launch: the state and the action that follow an event.
    pub open spec fn step(self, event: EventView) -> (LauncherView, ActionView) {
        match (self.stage, event) {
            // Isolation: one operation after the other, and none after the
            // first that fails.
            (Stage::Mounting(i), EventView::Done) => self.mount_from(i + 1),
            (Stage::Mounting(i), EventView::Failed) => self.fail(FaultView::Mount(self.plan[i as int])),
            (Stage::Forking, EventView::Parent) => (self.at(Stage::Waiting), ActionView::Wait),
            (Stage::Forking, EventView::Child) => self.confine(),
            (Stage::Forking, EventView::Failed) => self.fail(FaultView::Fork),
            // The child: chroot, then drop privileges, then execute. Whatever
            // fails ends it.
            (Stage::Chrooting, EventView::Done) => self.drop_privileges(),
            (Stage::Chrooting, EventView::Failed) => self.fail(FaultView::Chroot),
            (Stage::LookingUp, EventView::Uid(uid)) => (
                self.at(Stage::SwitchingUser),
                ActionView::SetUid(uid),
            ),
            (Stage::LookingUp, EventView::Failed) => self.fail(FaultView::UnknownUser),
            (Stage::SwitchingUser, EventView::Done) => self.execute(),
            (Stage::SwitchingUser, EventView::Failed) => self.fail(FaultView::SetUid),
            (Stage::Executing, _) => self.fail(FaultView::Exec),
            // The parent: wait, then tear down whatever the child did.
            (Stage::Waiting, EventView::Exited(status)) => LauncherView {
                status,
                ..self
            }.clear_from(0),
            (Stage::Waiting, EventView::Killed(signal)) => LauncherView {
                status: signal_status(signal),
                ..self
            }.clear_from(0),
            (Stage::Waiting, EventView::Failed) => LauncherView {
                status: FAILED,
                wait_failed: true,
                ..self
            }.clear_from(0),
            // Teardown: what cannot be detached is remembered, and nothing
            // stops it.
            (Stage::Listing(k), EventView::Mounts(mounts)) => LauncherView {
                queue: detach_order(self.subtrees[k as int], mounts),
                ..self
            }.detach_from(k as int, 0),
            (Stage::Listing(k), EventView::Failed) => self.leaving(
                self.subtrees[k as int],
            ).clear_from(k + 1),
            (Stage::Detaching(k, q), EventView::Done) => self.detach_from(k as int, q + 1),
            (Stage::Detaching(k, q), EventView::Failed) => self.leaving(
                self.queue[q as int],
            ).detach_from(k as int, q + 1),
            (Stage::Unbinding(t), EventView::Done) => self.unbind_from(t + 1),
            (Stage::Unbinding(t), EventView::Failed) => self.leaving(
                self.targets[t as int],
            ).unbind_from(t + 1),
            _ => self.fail(FaultView::Protocol),
        }
    }
}

impl ActionView {
    /// The actions that change or read what is mounted, or change the root.
    pub open spec fn isolates(self) -> bool {
        self is Mount || self is Unmount || self is ReadMounts || self is Chroot
    }
}

impl EventView {
    /// A mount table that a caller can hand over has a length that fits the
    /// machine.
    pub open spec fn wf(self) -> bool {
        self matches EventView::Mounts(mounts) ==> mounts.len() <= usize::MAX
    }
}

impl Stage {
    /// How far a launch has come. No step of a launch leads to a stage of
    /// lower rank.
    pub open spec fn rank(self) -> nat {
        match self {
            Stage::Ready => 0,
            Stage::Mounting(_) => 1,
            Stage::Forking => 2,
            Stage::Chrooting | Stage::Waiting => 3,
            Stage::LookingUp | Stage::Listing(_) | Stage::Detaching(_, _) => 4,
            Stage::SwitchingUser | Stage::Unbinding(_) => 5,
            Stage::Executing => 6,
            Stage::Finished => 7,
        }
    }

    /// The action that is out at this stage.
    pub open spec fn awaits(self, action: ActionView) -> bool {
        match self {
            Stage::Ready => false,
            Stage::Mounting(_) => action is Mount,
            Stage::Forking => action is Fork,
            Stage::Chrooting => action is Chroot,
            Stage::LookingUp => action is LookupUser,
            Stage::SwitchingUser => action is SetUid,
            Stage::Executing => action is Exec,
            Stage::Waiting => action is Wait,
            Stage::Listing(_) => action is ReadMounts,
            Stage::Detaching(_, _) | Stage::Unbinding(_) => action is Unmount,
            Stage::Finished => action is Exit,
        }
    }
}

impl LauncherView {
    /// No jail was asked for: there is nothing to mount and nothing to undo.
    pub open spec fn unjailed(self) -> bool {
        &&& self.root == live_root()
        &&& self.plan.len() == 0
        &&& self.subtrees.len() == 0
        &&& self.targets.len() == 0
        &&& self.queue.len() == 0
    }

    /// The events that answer the action that is out.
    pub open spec fn expects(self, event: EventView) -> bool {
        match self.stage {
            Stage::Ready | Stage::Finished => false,
            Stage::Mounting(_) | Stage::Chrooting | Stage::SwitchingUser | Stage::Detaching(
                _,
                _,
            ) | Stage::Unbinding(_) => event is Done || event is Failed,
            Stage::Forking => event is Parent || event is Child || event is Failed,
            Stage::LookingUp => event is Uid || event is Failed,
            Stage::Executing => event is Failed,
            Stage::Waiting => event is Exited || event is Killed || event is Failed,
            Stage::Listing(_) => event is Mounts || event is Failed,
        }
    }

    /// The actions that a run of events draws from the launcher, one for each
    /// event.
    pub open spec fn run(self, events: Seq<EventView>) -> Seq<ActionView>
        decreases events.len(),
    {
        if events.len() == 0 {
            Seq::empty()
        } else {
            let (next, action) = self.step(events[0]);
            seq![action] + next.run(events.skip(1))
        }
    }

    /// The actions of a whole launch: the first, and one for each event.
    pub open spec fn launch(self, events: Seq<EventView>) -> Seq<ActionView> {
        seq![self.start().1] + self.start().0.run(events)
    }

    /// Every event of the run answers the action before it.
    pub open spec fn follows(self, events: Seq<EventView>) -> bool
        decreases events.len(),
    {
        events.len() > 0 ==> {
            &&& events[0].wf()
            &&& self.expects(events[0])
            &&& self.step(events[0]).0.follows(events.skip(1))
        }
    }
}

/// A launch in progress.
#[derive(Debug)]
pub struct Launcher {
    path: String,
    args: Vec<String>,
    user: String,
    root: String,
    plan: Vec<MountOp>,
    subtrees: Vec<String>,
    targets: Vec<String>,
    stage: Stage,
    queue: Vec<String>,
    status: i32,
    wait_failed: bool,
    residue: Vec<String>,
}

impl View for Launcher {
    type V = LauncherView;

    closed spec fn view(&self) -> LauncherView {
        LauncherView {
            path: self.path@,
            args: self.args.deep_view(),
            user: self.user@,
            root: self.root@,
            plan: self.plan.deep_view(),
            subtrees: self.subtrees.deep_view(),
            targets: self.targets.deep_view(),
            stage: self.stage,
            queue: self.queue.deep_view(),
            status: self.status,
            wait_failed: self.wait_failed,
            residue: self.residue.deep_view(),
        }
    }
}

/// The effective user id of the process, as `nix::unistd::geteuid` reports
/// it. Nothing is promised of the id: it depends on who runs the process.
#[verifier::external_body]
fn effective_uid() -> u32 {
    nix::unistd::geteuid().as_raw()
}

/// The rule of the change of root: nothing is to be done where `path` is the
/// live root; elsewhere the change is refused to all but root, and for root
/// it is the `Chroot` action.
pub open spec fn chroot_rule(
    path: Seq<char>,
    is_root: bool,
    r: Result<Option<Action>, LaunchError>,
) -> bool {
    if path == live_root() {
        r matches Ok(None)
    } else if !is_root {
        r matches Err(LaunchError::NotRoot)
    } else {
        r matches Ok(Some(a)) && a@ == ActionView::Chroot(path)
    }
}

/// What changing the root to `path` takes, for a process that runs with root
/// identity or without, as `is_root` says.
pub fn chroot_as(path: &str, is_root: bool) -> (r: Result<Option<Action>, LaunchError>)
    ensures
        chroot_rule(path@, is_root, r),
{
    if is_live_root(path) {
        Ok(None)
    } else if !is_root {
        Err(LaunchError::NotRoot)
    } else {
        Ok(Some(Action::Chroot(path.to_owned())))
    }
}

/// What changing the root to `path` takes, for this process. Root identity is
/// an effective user id of zero.
pub fn chroot(path: &str) -> (r: Result<Option<Action>, LaunchError>)
    ensures
        chroot_rule(path@, true, r) || chroot_rule(path@, false, r),
{
    chroot_as(path, effective_uid() == 0)
}

/// What giving up privileges for `user` begins with: nothing where no user
/// is named; else the lookup of the user's id.
pub fn drop_privs(user: &str) -> (r: Option<Action>)
    ensures
        user@.len() == 0 ==> r is None,
        user@.len() > 0 ==> (r matches Some(a) && a@ == ActionView::LookupUser(user@)),
{
    if user.is_empty() {
        None
    } else {
        Some(Action::LookupUser(user.to_owned()))
    }
}

/// The rule by which a launch is prepared. A jail needs root identity, and
/// that is tested first; then every directive line must be valid. Where `d`
/// is the live root neither is asked for. The launcher that results is in its
/// first state and has done nothing yet.
pub open spec fn launch_rule(
    path: Seq<char>,
    args: Seq<Seq<char>>,
    user: Seq<char>,
    d: Seq<char>,
    rules: Seq<Seq<char>>,
    is_root: bool,
    r: Result<Launcher, LaunchError>,
) -> bool {
    match r {
        Ok(launcher) => {
            &&& d == live_root() || is_root
            &&& d != live_root() ==> all_valid(rules)
            &&& launcher@.wf()
            &&& launcher@ == LauncherView::initial(path, args, user, d, rules)
        },
        Err(LaunchError::NotRoot) => d != live_root() && !is_root,
        Err(LaunchError::Config(e)) => d != live_root() && is_root && first_fault(rules, e),
    }
}

/// Prepares the launch of the program at `path` with the arguments `args`, as
/// `user`, in the jail at `d` built from `bind_mount_rules`, for a process
/// that runs with root identity or without, as `is_root` says.
///
/// Nothing is done to the system: the result is the launcher in its first
/// state, or the reason why there can be no launch, as `launch_rule` says.
pub fn exec_pm_as(
    path: &str,
    args: Vec<String>,
    user: &str,
    d: &str,
    bind_mount_rules: &Vec<String>,
    is_root: bool,
) -> (r: Result<Launcher, LaunchError>)
    ensures
        launch_rule(
            path@,
            args.deep_view(),
            user@,
            d@,
            bind_mount_rules.deep_view(),
            is_root,
            r,
        ),
{
    match chroot_as(d, is_root) {
        Err(e) => {
            return Err(e);
        },
        Ok(_) => {},
    }
    let plan = match bind_mounts(bind_mount_rules, d) {
        Ok(plan) => plan,
        Err(e) => {
            return Err(LaunchError::Config(e));
        },
    };
    let teardown = match unbind_mounts(bind_mount_rules, d) {
        Ok(teardown) => teardown,
        Err(e) => {
            return Err(LaunchError::Config(e));
        },
    };
    let launcher = Launcher {
        path: path.to_owned(),
        args,
        user: user.to_owned(),
        root: d.to_owned(),
        plan,
        subtrees: teardown.subtrees,
        targets: teardown.targets,
        stage: Stage::Ready,
        queue: Vec::new(),
        status: 0,
        wait_failed: false,
        residue: Vec::new(),
    };
    launcher.well_formed();
    proof {
        let v = launcher@;
        let w = LauncherView::initial(
            path@,
            args.deep_view(),
            user@,
            d@,
            bind_mount_rules.deep_view(),
        );
        assert(v.queue =~= w.queue);
        assert(v.subtrees =~= w.subtrees);
        assert(v.targets =~= w.targets);
    }
    Ok(launcher)
}

/// Prepares the launch of the program at `path` with the arguments `args`, as
/// `user`, in the jail at `d` built from `bind_mount_rules`, for this process.
///
/// The identity of the process is asked for once, here; root identity is an
/// effective user id of zero. The result is what `launch_rule` gives for that
/// identity. At the live root it is the same for every identity.
pub fn exec_pm(
    path: &str,
    args: Vec<String>,
    user: &str,
    d: &str,
    bind_mount_rules: &Vec<String>,
) -> (r: Result<Launcher, LaunchError>)
    ensures
        launch_rule(path@, args.deep_view(), user@, d@, bind_mount_rules.deep_view(), true, r)
            || launch_rule(
            path@,
            args.deep_view(),
            user@,
            d@,
            bind_mount_rules.deep_view(),
            false,
            r,
        ),
{
    exec_pm_as(path, args, user, d, bind_mount_rules, effective_uid() == 0)
}

impl Launcher {
    #[verifier::type_invariant]
    spec fn inv(self) -> bool {
        match self.stage {
            Stage::Mounting(i) => i < self.plan.len(),
            Stage::Listing(k) => k < self.subtrees.len(),
            Stage::Detaching(k, q) => k < self.subtrees.len() && q < self.queue.len(),
            Stage::Unbinding(t) => t < self.targets.len(),
            _ => true,
        }
    }

    /// Where the launch stands.
    pub fn stage(&self) -> (r: Stage)
        ensures
            r == self@.stage,
    {
        self.stage
    }

    fn exit(&mut self, code: i32, fault: Option<Fault>) -> (a: Action)
        ensures
            final(self)@ == old(self)@.exit(
                code,
                match fault {
                    Some(f) => Some(f@),
                    None => None,
                },
            ).0,
            a@ == old(self)@.exit(
                code,
                match fault {
                    Some(f) => Some(f@),
                    None => None,
                },
            ).1,
    {
        self.stage = Stage::Finished;
        Action::Exit(Outcome { code, fault, residue: copy_strings(&self.residue) })
    }

    fn fail(&mut self, fault: Fault) -> (a: Action)
        ensures
            final(self)@ == old(self)@.fail(fault@).0,
            a@ == old(self)@.fail(fault@).1,
    {
        self.exit(FAILED, Some(fault))
    }

    fn mount_from(&mut self, i: usize) -> (a: Action)
        ensures
            final(self)@ == old(self)@.mount_from(i as int).0,
            a@ == old(self)@.mount_from(i as int).1,
    {
        if i < self.plan.len() {
            self.stage = Stage::Mounting(i);
            Action::Mount(self.plan[i].duplicate())
        } else {
            self.stage = Stage::Forking;
            Action::Fork
        }
    }

    fn execute(&mut self) -> (a: Action)
        ensures
            final(self)@ == old(self)@.execute().0,
            a@ == old(self)@.execute().1,
    {
        self.stage = Stage::Executing;
        let mut argv: Vec<String> = Vec::new();
        argv.push(self.path.clone());
        let mut args = copy_strings(&self.args);
        let ghost first = argv.deep_view();
        let ghost rest = args.deep_view();
        argv.append(&mut args);
        assert(argv.deep_view() =~= first + rest);
        assert(first =~= seq![self.path@]);
        Action::Exec { path: self.path.clone(), argv }
    }

    fn drop_privileges(&mut self) -> (a: Action)
        ensures
            final(self)@ == old(self)@.drop_privileges().0,
            a@ == old(self)@.drop_privileges().1,
    {
        match drop_privs(self.user.as_str()) {
            Some(lookup) => {
                self.stage = Stage::LookingUp;
                lookup
            },
            None => self.execute(),
        }
    }

    fn confine(&mut self) -> (a: Action)
        ensures
            final(self)@ == old(self)@.confine().0,
            a@ == old(self)@.confine().1,
    {
        match chroot_as(self.root.as_str(), true) {
            Ok(Some(change)) => {
                self.stage = Stage::Chrooting;
                change
            },
            _ => self.drop_privileges(),
        }
    }

    fn unbind_from(&mut self, t: usize) -> (a: Action)
        ensures
            final(self)@ == old(self)@.unbind_from(t as int).0,
            a@ == old(self)@.unbind_from(t as int).1,
    {
        if t < self.targets.len() {
            self.stage = Stage::Unbinding(t);
            Action::Unmount { target: self.targets[t].clone(), force: false }
        } else {
            let fault = if self.wait_failed {
                Some(Fault::Wait)
            } else {
                None
            };
            self.exit(self.status, fault)
        }
    }

    fn clear_from(&mut self, k: usize) -> (a: Action)
        ensures
            final(self)@ == old(self)@.clear_from(k as int).0,
            a@ == old(self)@.clear_from(k as int).1,
    {
        if k < self.subtrees.len() {
            self.stage = Stage::Listing(k);
            Action::ReadMounts
        } else {
            self.unbind_from(0)
        }
    }

    fn detach_from(&mut self, k: usize, q: usize) -> (a: Action)
        requires
            k < old(self)@.subtrees.len(),
        ensures
            final(self)@ == old(self)@.detach_from(k as int, q as int).0,
            a@ == old(self)@.detach_from(k as int, q as int).1,
    {
        if q < self.queue.len() {
            self.stage = Stage::Detaching(k, q);
            Action::Unmount { target: self.queue[q].clone(), force: true }
        } else {
            assert(self@.subtrees.len() == self.subtrees.len());
            self.clear_from(k + 1)
        }
    }

    fn leave(&mut self, path: String)
        ensures
            final(self)@ == old(self)@.leaving(path@),
    {
        proof {
            use_type_invariant(&*self);
        }
        let ghost before = self.residue.deep_view();
        let mut residue: Vec<String> = Vec::new();
        std::mem::swap(&mut self.residue, &mut residue);
        residue.push(path);
        self.residue = residue;
        assert(self.residue.deep_view() =~~= before.push(path@));
    }

    /// The cursors of every launcher point into their lists.
    fn well_formed(&self)
        ensures
            self@.wf(),
    {
        proof {
            use_type_invariant(self);
            assert(self@.plan.len() == self.plan.len());
            assert(self@.subtrees.len() == self.subtrees.len());
            assert(self@.targets.len() == self.targets.len());
            assert(self@.queue.len() == self.queue.len());
        }
    }

    /// Begins the launch: hands out its first action.
    pub fn start(&mut self) -> (action: Action)
        ensures
            final(self)@ == old(self)@.start().0,
            action@ == old(self)@.start().1,
            final(self)@.wf(),
    {
        let action = match self.stage {
            Stage::Ready => self.mount_from(0),
            _ => self.fail(Fault::Protocol),
        };
        self.well_formed();
        action
    }

    /// Takes what came of the last action and hands out the next, as
    /// `LauncherView::step` rules.
    pub fn step(&mut self, event: Event) -> (action: Action)
        ensures
            final(self)@ == old(self)@.step(event@).0,
            action@ == old(self)@.step(event@).1,
            final(self)@.wf(),
    {
        proof {
            use_type_invariant(&*self);
        }
        let action = match self.stage {
            Stage::Mounting(i) => match event {
                Event::Done => self.mount_from(i + 1),
                Event::Failed => {
                    let op = self.plan[i].duplicate();
                    self.fail(Fault::Mount(op))
                },
                _ => self.fail(Fault::Protocol),
            },
            Stage::Forking => match event {
                Event::Parent => {
                    self.stage = Stage::Waiting;
                    Action::Wait
                },
                Event::Child => self.confine(),
                Event::Failed => self.fail(Fault::Fork),
                _ => self.fail(Fault::Protocol),
            },
            Stage::Chrooting => match event {
                Event::Done => self.drop_privileges(),
                Event::Failed => self.fail(Fault::Chroot),
                _ => self.fail(Fault::Protocol),
            },
            Stage::LookingUp => match event {
                Event::Uid(uid) => {
                    self.stage = Stage::SwitchingUser;
                    Action::SetUid(uid)
                },
                Event::Failed => self.fail(Fault::UnknownUser),
                _ => self.fail(Fault::Protocol),
            },
            Stage::SwitchingUser => match event {
                Event::Done => self.execute(),
                Event::Failed => self.fail(Fault::SetUid),
                _ => self.fail(Fault::Protocol),
            },
            Stage::Executing => self.fail(Fault::Exec),
            Stage::Waiting => match event {
                Event::Exited(status) => {
                    self.status = status;
                    self.clear_from(0)
                },
                Event::Killed(signal) => {
                    self.status = if 0 <= signal && signal < 128 {
                        128 + signal
                    } else {
                        FAILED
                    };
                    self.clear_from(0)
                },
                Event::Failed => {
                    self.status = FAILED;
                    self.wait_failed = true;
                    self.clear_from(0)
                },
                _ => self.fail(Fault::Protocol),
            },
            Stage::Listing(k) => match event {
                Event::Mounts(mounts) => {
                    self.queue = recursive_umount(self.subtrees[k].as_str(), &mounts);
                    self.detach_from(k, 0)
                },
                Event::Failed => {
                    let path = self.subtrees[k].clone();
                    self.leave(path);
                    self.clear_from(k + 1)
                },
                _ => self.fail(Fault::Protocol),
            },
            Stage::Detaching(k, q) => match event {
                Event::Done => self.detach_from(k, q + 1),
                Event::Failed => {
                    let path = self.queue[q].clone();
                    self.leave(path);
                    self.detach_from(k, q + 1)
                },
                _ => self.fail(Fault::Protocol),
            },
            Stage::Unbinding(t) => match event {
                Event::Done => self.unbind_from(t + 1),
                Event::Failed => {
                    let path = self.targets[t].clone();
                    self.leave(path);
                    self.unbind_from(t + 1)
                },
                _ => self.fail(Fault::Protocol),
            },
            _ => self.fail(Fault::Protocol),
        };
        self.well_formed();
        action
    }
}

/// A step keeps the cursors within their lists.
pub proof fn lemma_step_wf(s: LauncherView, event: EventView)
    requires
        s.wf(),
        event.wf(),
    ensures
        s.start().0.wf(),
        s.step(event).0.wf(),
{
    if let (Stage::Listing(k), EventView::Mounts(mounts)) = (s.stage, event) {
        lemma_detach_order(s.subtrees[k as int], mounts);
        let kept = below(s.subtrees[k as int], mounts);
        broadcast use vstd::seq_lib::group_filter_ensures;

        vstd::seq_lib::to_multiset_len(kept);
        vstd::seq_lib::to_multiset_len(detach_order(s.subtrees[k as int], mounts));
    }
}

/// Every step leads on: the stage that follows has at least the rank of the
/// stage before, and the action handed out is the one that the new stage
/// waits for. So no mount follows the fork, and neither the chroot, the
/// execution, the wait nor any unmount comes before it.
pub proof fn lemma_step_leads_on(s: LauncherView, event: EventView)
    requires
        s.wf(),
    ensures
        s.start().0.stage.awaits(s.start().1),
        s.step(event).0.stage.rank() >= s.stage.rank(),
        s.step(event).0.stage.awaits(s.step(event).1),
{
}

/// At the live root isolation is a complete no-op: no step mounts, unmounts,
/// reads the mount table or changes the root.
pub proof fn lemma_unjailed_step(s: LauncherView, event: EventView)
    requires
        s.wf(),
        s.unjailed(),
    ensures
        s.start().0.unjailed(),
        !s.start().1.isolates(),
        s.step(event).0.unjailed(),
        !s.step(event).1.isolates(),
{
}

/// At the live root no run of events draws a mount, an unmount, a reading of
/// the mount table or a change of root from the launcher.
pub proof fn lemma_unjailed_run(s: LauncherView, events: Seq<EventView>)
    requires
        s.wf(),
        s.unjailed(),
        forall|i: int| 0 <= i < events.len() ==> (#[trigger] events[i]).wf(),
    ensures
        forall|i: int| 0 <= i < s.run(events).len() ==> !(#[trigger] s.run(events)[i]).isolates(),
    decreases events.len(),
{
    if events.len() > 0 {
        let (next, action) = s.step(events[0]);
        lemma_step_wf(s, events[0]);
        lemma_unjailed_step(s, events[0]);
        let rest = events.skip(1);
        lemma_unjailed_run(next, rest);
        assert forall|i: int| 0 <= i < s.run(events).len() implies !(#[trigger] s.run(
            events,
        )[i]).isolates() by {
            if i > 0 {
                assert(s.run(events)[i] == next.run(rest)[i - 1]);
            }
        }
    }
}

/// A launch at the live root touches no mount: whatever the events, it hands
/// out no mount, no unmount, no reading of the mount table and no change of
/// root.
pub proof fn lemma_no_isolation_at_live_root(
    path: Seq<char>,
    args: Seq<Seq<char>>,
    user: Seq<char>,
    rules: Seq<Seq<char>>,
    events: Seq<EventView>,
)
    requires
        forall|i: int| 0 <= i < events.len() ==> (#[trigger] events[i]).wf(),
    ensures
        ({
            let actions = LauncherView::initial(path, args, user, live_root(), rules).launch(
                events,
            );
            forall|i: int| 0 <= i < actions.len() ==> !(#[trigger] actions[i]).isolates()
        }),
{
    let s = LauncherView::initial(path, args, user, live_root(), rules);
    let e = EventView::Done;
    lemma_step_wf(s, e);
    lemma_unjailed_step(s, e);
    lemma_unjailed_run(s.start().0, events);
}

/// The child never returns to the caller's business: from a stage of the
/// child a step leads to another stage of the child or to the end, it hands
/// out only what the child does, and where it ends the process, the status is
/// not zero.
pub proof fn lemma_child_never_returns(s: LauncherView, event: EventView)
    requires
        s.stage.in_child(),
    ensures
        ({
            let (next, action) = s.step(event);
            &&& next.stage.in_child() || next.stage is Finished
            &&& action is LookupUser || action is SetUid || action is Exec || action is Exit
            &&& action matches ActionView::Exit(outcome) ==> outcome.code != 0
                && outcome.fault is Some
        }),
{
}

/// Once the fork is out, no mount follows: from a stage at or past the fork
/// no run of events draws a mount operation from the launcher.
pub proof fn lemma_no_mount_after_fork(s: LauncherView, events: Seq<EventView>)
    requires
        s.wf(),
        s.stage.rank() >= 2,
        forall|i: int| 0 <= i < events.len() ==> (#[trigger] events[i]).wf(),
    ensures
        forall|i: int| 0 <= i < s.run(events).len() ==> !(#[trigger] s.run(events)[i] is Mount),
    decreases events.len(),
{
    if events.len() > 0 {
        let (next, action) = s.step(events[0]);
        let rest = events.skip(1);
        lemma_step_wf(s, events[0]);
        lemma_step_leads_on(s, events[0]);
        lemma_no_mount_after_fork(next, rest);
    }
}

/// The child stays the child: from one of its stages no run of events draws
/// anything but the lookup of the user, the switch of identity, the execution
/// and the exit, and every exit has a status that is not zero.
pub proof fn lemma_child_run(s: LauncherView, events: Seq<EventView>)
    requires
        s.stage.in_child() || s.stage is Finished,
    ensures
        forall|i: int|
            0 <= i < s.run(events).len() ==> match #[trigger] s.run(events)[i] {
                ActionView::LookupUser(_) | ActionView::SetUid(_) | ActionView::Exec { .. } => true,
                ActionView::Exit(outcome) => outcome.code != 0,
                _ => false,
            },
    decreases events.len(),
{
    if events.len() > 0 {
        let (next, action) = s.step(events[0]);
        let rest = events.skip(1);
        if s.stage.in_child() {
            lemma_child_never_returns(s, events[0]);
        }
        lemma_child_run(next, rest);
    }
}

/// No unmount comes before the wait: in a run from a stage up to the fork,
/// whatever touches the mounts for teardown is preceded by the `Wait`.
pub proof fn lemma_teardown_follows_wait(s: LauncherView, events: Seq<EventView>, j: int)
    requires
        s.wf(),
        s.stage.rank() <= 2,
        forall|i: int| 0 <= i < events.len() ==> (#[trigger] events[i]).wf(),
        0 <= j < s.run(events).len(),
        s.run(events)[j] is Unmount || s.run(events)[j] is ReadMounts,
    ensures
        exists|i: int| 0 <= i < j && #[trigger] s.run(events)[i] is Wait,
    decreases events.len(),
{
    let (next, action) = s.step(events[0]);
    let rest = events.skip(1);
    lemma_step_wf(s, events[0]);
    lemma_step_leads_on(s, events[0]);
    if next.stage is Waiting {
        assert(s.run(events)[0] is Wait);
    } else if next.stage.rank() <= 2 {
        lemma_teardown_follows_wait(next, rest, j - 1);
        let i = choose|i: int| 0 <= i < j - 1 && #[trigger] next.run(rest)[i] is Wait;
        assert(s.run(events)[i + 1] == next.run(rest)[i]);
    } else {
        lemma_child_run(next, rest);
    }
}

/// The teardown changes neither the status of the child nor the course of
/// the parent: from a stage of the teardown, an event that answers the action
/// leads to another such stage or to the end, and the parent ends with the
/// status that it holds for the child, whatever could not be detached.
pub proof fn lemma_teardown_keeps_status(s: LauncherView, event: EventView)
    requires
        s.wf(),
        s.stage.in_teardown(),
        s.expects(event),
    ensures
        ({
            let (next, action) = s.step(event);
            &&& next.status == s.status
            &&& next.stage.in_teardown() || next.stage is Finished
            &&& action is ReadMounts || action is Unmount || action is Exit
            &&& action matches ActionView::Exit(outcome) ==> outcome.code == s.status
        }),
{
}

/// The parent's exit status reflects the child's: once the child has
/// terminated with `status`, whatever the teardown meets, the parent exits
/// with `status` and with no other.
pub proof fn lemma_parent_exits_with_child_status(
    s: LauncherView,
    status: i32,
    events: Seq<EventView>,
)
    requires
        s.wf(),
        s.stage is Waiting,
        s.step(EventView::Exited(status)).0.follows(events),
    ensures
        ({
            let actions = s.run(seq![EventView::Exited(status)] + events);
            forall|i: int|
                0 <= i < actions.len() ==> (#[trigger] actions[i] matches ActionView::Exit(
                    outcome,
                ) ==> outcome.code == status)
        }),
{
    let first = EventView::Exited(status);
    let all = seq![first] + events;
    let (next, action) = s.step(first);
    lemma_step_wf(s, first);
    assert(all.skip(1) =~= events);
    lemma_teardown_run(next, events);
}

/// From a stage of the teardown, or from the end, a run of answering events
/// draws no exit status but the one held for the child.
proof fn lemma_teardown_run(s: LauncherView, events: Seq<EventView>)
    requires
        s.wf(),
        s.stage.in_teardown() || s.stage is Finished,
        s.follows(events),
    ensures
        forall|i: int|
            0 <= i < s.run(events).len() ==> (#[trigger] s.run(events)[i] matches ActionView::Exit(
                outcome,
            ) ==> outcome.code == s.status),
    decreases events.len(),
{
    if events.len() > 0 {
        let (next, action) = s.step(events[0]);
        lemma_step_wf(s, events[0]);
        lemma_teardown_keeps_status(s, events[0]);
        lemma_teardown_run(next, events.skip(1));
    }
}

} // verus!
