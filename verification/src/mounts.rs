//! The isolation plan: which mount operations build the jail, in which order.
//!
//! Nothing here touches the kernel. The functions compute the operations; the
//! caller performs them one by one, in the order given, and stops at the first
//! that fails.

use vstd::prelude::*;
use crate::directive::{parse_bm_directive, parse_line, DirectiveView, ParseError};
use crate::options::{all_known, first_unknown, resolve, resolved, MountOptions};
use crate::text::{chars_of, followed_by, spells};

verus! {

/// One call of the kernel's mount interface.
#[derive(Clone, Debug, PartialEq, Eq)]
pub enum MountOp {
    /// Bind `source` onto `target`; mounts below `source` are not carried
    /// along.
    Bind { source: String, target: String },
    /// Bind the whole subtree at `source` onto `target`.
    RecursiveBind { source: String, target: String },
    /// Change the propagation of the subtree at `target` to slave,
    /// recursively, and nothing else.
    MakeSlave { target: String },
    /// Remount the bind at `target` so that it carries these flags.
    Remount { target: String, options: MountOptions },
}

/// A mount operation as plain text and flags.
pub enum MountOpView {
    Bind { source: Seq<char>, target: Seq<char> },
    RecursiveBind { source: Seq<char>, target: Seq<char> },
    MakeSlave { target: Seq<char> },
    Remount { target: Seq<char>, options: MountOptions },
}

impl View for MountOp {
    type V = MountOpView;

    open spec fn view(&self) -> MountOpView {
        match self {
            MountOp::Bind { source, target } => MountOpView::Bind {
                source: source@,
                target: target@,
            },
            MountOp::RecursiveBind { source, target } => MountOpView::RecursiveBind {
                source: source@,
                target: target@,
            },
            MountOp::MakeSlave { target } => MountOpView::MakeSlave { target: target@ },
            MountOp::Remount { target, options } => MountOpView::Remount {
                target: target@,
                options: *options,
            },
        }
    }
}

/// A list of operations is viewed operation by operation.
impl DeepView for MountOp {
    type V = MountOpView;

    open spec fn deep_view(&self) -> MountOpView {
        self@
    }
}

impl MountOp {
    /// A copy of this operation.
    pub fn duplicate(&self) -> (r: MountOp)
        ensures
            r@ == self@,
    {
        match self {
            MountOp::Bind { source, target } => MountOp::Bind {
                source: source.clone(),
                target: target.clone(),
            },
            MountOp::RecursiveBind { source, target } => MountOp::RecursiveBind {
                source: source.clone(),
                target: target.clone(),
            },
            MountOp::MakeSlave { target } => MountOp::MakeSlave { target: target.clone() },
            MountOp::Remount { target, options } => MountOp::Remount {
                target: target.clone(),
                options: *options,
            },
        }
    }
}

/// Why a list of directive lines gives no plan: the first line at fault and
/// what is wrong with it.
#[derive(Clone, Debug, PartialEq, Eq)]
pub enum ConfigError {
    /// Line `index` is not a directive.
    BadDirective { index: usize, error: ParseError },
    /// Line `index` is a directive, and `token` is the first of its options
    /// that is not recognized.
    UnsupportedOption { index: usize, token: String },
}

/// The text `"/"`: the live root, which is never a jail.
pub open spec fn live_root() -> Seq<char> {
    seq!['/']
}

/// The two operations that bring the host subtree `dir` into the jail: first
/// the recursive bind, then, as a call of its own, the change of propagation.
pub open spec fn rslave_plan(root: Seq<char>, dir: Seq<char>) -> Seq<MountOpView> {
    seq![
        MountOpView::RecursiveBind { source: dir, target: root + dir },
        MountOpView::MakeSlave { target: root + dir },
    ]
}

/// The operations that bring `/proc`, `/dev` and `/sys` into the jail.
pub open spec fn special_plan(root: Seq<char>) -> Seq<MountOpView> {
    seq![MountOpView::Bind { source: "/proc"@, target: root + "/proc"@ }] + rslave_plan(
        root,
        "/dev"@,
    ) + rslave_plan(root, "/sys"@)
}

/// The two operations of one directive: the plain bind of the source onto its
/// place below the jail root, then the remount that applies the flags.
pub open spec fn directive_plan(d: DirectiveView, root: Seq<char>) -> Seq<MountOpView> {
    seq![
        MountOpView::Bind { source: d.local, target: root + d.mountpoint },
        MountOpView::Remount { target: root + d.mountpoint, options: resolved(d.options) },
    ]
}

/// A line that is a directive all of whose options are recognized.
pub open spec fn valid_rule(rule: Seq<char>) -> bool {
    match parse_line(rule) {
        Ok(d) => all_known(d.options),
        Err(_) => false,
    }
}

/// Every line is a directive all of whose options are recognized.
pub open spec fn all_valid(rules: Seq<Seq<char>>) -> bool {
    forall|i: int| 0 <= i < rules.len() ==> valid_rule(#[trigger] rules[i])
}

/// The error names the first line at fault and says what is wrong with it:
/// every line before it is valid, and the line itself either is no directive,
/// for the reason given, or is one whose first unrecognized option is the
/// token given.
pub open spec fn first_fault(rules: Seq<Seq<char>>, e: ConfigError) -> bool {
    match e {
        ConfigError::BadDirective { index, error } => {
            &&& index < rules.len()
            &&& all_valid(rules.take(index as int))
            &&& parse_line(rules[index as int]) == Err::<DirectiveView, ParseError>(error)
        },
        ConfigError::UnsupportedOption { index, token } => {
            &&& index < rules.len()
            &&& all_valid(rules.take(index as int))
            &&& parse_line(rules[index as int]) matches Ok(d) && first_unknown(d.options, token@)
        },
    }
}

/// The operations of the lines among `rules` that are directives, line by
/// line in the order given.
pub open spec fn rules_plan(rules: Seq<Seq<char>>, root: Seq<char>) -> Seq<MountOpView>
    decreases rules.len(),
{
    if rules.len() == 0 {
        Seq::empty()
    } else {
        let before = rules_plan(rules.drop_last(), root);
        match parse_line(rules.last()) {
            Ok(d) => before + directive_plan(d, root),
            Err(_) => before,
        }
    }
}

/// The whole plan for a jail at `root`: nothing where `root` is the live
/// root; else the special filesystems, then the directives.
pub open spec fn jail_plan(rules: Seq<Seq<char>>, root: Seq<char>) -> Seq<MountOpView> {
    if root == live_root() {
        Seq::empty()
    } else {
        special_plan(root) + rules_plan(rules, root)
    }
}

/// Whether `root` names the live root.
pub fn is_live_root(root: &str) -> (r: bool)
    ensures
        r == (root@ == live_root()),
{
    proof {
        reveal_strlit("/");
        assert("/"@ =~= live_root());
    }
    spells(&chars_of(root), "/")
}

/// The operations that bind the host subtree `dir` into the jail at `root`
/// with slave propagation.
pub fn rbind_make_rslave(root: &str, dir: &str) -> (r: Vec<MountOp>)
    ensures
        r.deep_view() == rslave_plan(root@, dir@),
{
    let mut plan: Vec<MountOp> = Vec::new();
    plan.push(MountOp::RecursiveBind { source: dir.to_owned(), target: followed_by(root, dir) });
    plan.push(MountOp::MakeSlave { target: followed_by(root, dir) });
    plan
}

/// Appends the operations of `more` to `plan`.
fn extend_plan(plan: &mut Vec<MountOp>, more: Vec<MountOp>)
    ensures
        final(plan).deep_view() == old(plan).deep_view() + more.deep_view(),
{
    let mut more = more;
    plan.append(&mut more);
}

/// The operations that bring `/proc`, `/dev` and `/sys` into the jail at
/// `root`.
pub fn mount_dev_proc_sys(root: &str) -> (r: Vec<MountOp>)
    ensures
        r.deep_view() == special_plan(root@),
{
    let mut plan: Vec<MountOp> = Vec::new();
    plan.push(MountOp::Bind { source: "/proc".to_owned(), target: followed_by(root, "/proc") });
    assert(plan.deep_view() =~= seq![
        MountOpView::Bind { source: "/proc"@, target: root@ + "/proc"@ },
    ]);
    extend_plan(&mut plan, rbind_make_rslave(root, "/dev"));
    extend_plan(&mut plan, rbind_make_rslave(root, "/sys"));
    plan
}

/// The plan that builds the jail at `root` from the directive lines `rules`.
///
/// Where `root` is the live root there is nothing to do and the plan is
/// empty, whatever the lines hold. Otherwise the plan is owed exactly when
/// every line is a directive with recognized options; it then holds the
/// special filesystems first and two operations per directive after them, in
/// the order of the lines. Where a line is at fault, the error names the first
/// such line.
pub fn bind_mounts(rules: &Vec<String>, root: &str) -> (r: Result<Vec<MountOp>, ConfigError>)
    ensures
        match r {
            Ok(plan) => {
                &&& plan.deep_view() == jail_plan(rules.deep_view(), root@)
                &&& root@ != live_root() ==> all_valid(rules.deep_view())
            },
            Err(e) => root@ != live_root() && first_fault(rules.deep_view(), e),
        },
{
    if is_live_root(root) {
        return Ok(Vec::new());
    }
    let ghost lines = rules.deep_view();
    let mut plan = mount_dev_proc_sys(root);
    let mut i: usize = 0;
    while i < rules.len()
        invariant
            i <= rules.len(),
            lines == rules.deep_view(),
            root@ != live_root(),
            all_valid(lines.take(i as int)),
            plan.deep_view() == special_plan(root@) + rules_plan(lines.take(i as int), root@),
        decreases rules.len() - i,
    {
        let ghost seen = lines.take(i as int);
        let ghost next = lines.take(i + 1);
        assert(next.drop_last() =~= seen);
        let rule = match parse_bm_directive(rules[i].as_str()) {
            Ok(rule) => rule,
            Err(error) => {
                return Err(ConfigError::BadDirective { index: i, error });
            },
        };
        let flags = match resolve(&rule.options) {
            Ok(flags) => flags,
            Err(e) => {
                assert(rule@.options[e.index as int] == e.token@);
                return Err(ConfigError::UnsupportedOption { index: i, token: e.token });
            },
        };
        let target = followed_by(root, rule.mountpoint.as_str());
        let ghost before = plan.deep_view();
        plan.push(MountOp::Bind { source: rule.local, target: target.clone() });
        plan.push(MountOp::Remount { target, options: flags });
        assert(plan.deep_view() =~= before + directive_plan(rule@, root@));
        assert forall|k: int| 0 <= k < next.len() implies valid_rule(#[trigger] next[k]) by {
        }
        i += 1;
    }
    assert(lines.take(i as int) =~= lines);
    Ok(plan)
}

} // verus!
