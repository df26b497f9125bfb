//! The teardown plan: which mount points are detached, in which order.
//!
//! A mount point cannot be detached while another mount sits on top of it.
//! Below a prefix the mount points are therefore taken in descending
//! lexicographic order, which puts every mount point before the ones whose
//! path it extends.

use vstd::prelude::*;
use vstd::relations::total_ordering;
use crate::directive::{parse_bm_directive, parse_line, DirectiveView, ParseError};
use crate::mounts::{is_live_root, live_root, ConfigError};
use crate::sorting::{descending, reverse_texts, sort_texts};
use crate::text::{
    chars_of, followed_by, has_prefix, lemma_lex_le_antisymmetric, lemma_lex_le_reflexive,
    lemma_lex_le_total, lemma_lex_le_transitive, lemma_prefix_lex_le, lex_le, split, split_list,
    string_of, strings_of,
};

verus! {

/// The mount point that one line of the mount table names: its fifth field,
/// where the line has more than five fields separated by single spaces.
pub open spec fn entry_mount_point(line: Seq<char>) -> Option<Seq<char>> {
    let fields = split(line, ' ');
    if fields.len() > 5 {
        Some(fields[4])
    } else {
        None
    }
}

/// The mount points that a mount table names, in the order of its lines.
pub open spec fn mount_table(text: Seq<char>) -> Seq<Seq<char>> {
    split(text, '\n').filter_map(|line: Seq<char>| entry_mount_point(line))
}

/// The mount points below `prefix`: those whose path begins with it.
pub open spec fn below(prefix: Seq<char>, mounts: Seq<Seq<char>>) -> Seq<Seq<char>> {
    mounts.filter(|m: Seq<char>| prefix.is_prefix_of(m))
}

/// The order in which to detach what lies below `prefix`: the mount points
/// below it, sorted into descending lexicographic order.
pub open spec fn detach_order(prefix: Seq<char>, mounts: Seq<Seq<char>>) -> Seq<Seq<char>> {
    below(prefix, mounts).sort_by(|a: Seq<char>, b: Seq<char>| lex_le(b, a))
}

/// What `detach_order` is: the one descending arrangement of the mount points
/// below the prefix.
pub proof fn lemma_detach_order(prefix: Seq<char>, mounts: Seq<Seq<char>>)
    ensures
        descending(detach_order(prefix, mounts)),
        detach_order(prefix, mounts).to_multiset() == below(prefix, mounts).to_multiset(),
        forall|order: Seq<Seq<char>>|
            descending(order) && #[trigger] order.to_multiset() == below(
                prefix,
                mounts,
            ).to_multiset() ==> order == detach_order(prefix, mounts),
{
    let geq = |a: Seq<char>, b: Seq<char>| lex_le(b, a);
    let chosen = below(prefix, mounts);
    lemma_descending_is_total_ordering();
    chosen.lemma_sort_by_ensures(geq);
    let sorted = detach_order(prefix, mounts);
    assert(descending(sorted)) by {
        assert forall|i: int, j: int| 0 <= i < j < sorted.len() implies lex_le(
            #[trigger] sorted[j],
            #[trigger] sorted[i],
        ) by {
            assert(geq(sorted[i], sorted[j]));
        }
    }
    assert forall|order: Seq<Seq<char>>|
        descending(order) && #[trigger] order.to_multiset() == chosen.to_multiset() implies order
        == sorted by {
        vstd::seq_lib::lemma_sorted_unique(order, sorted, geq);
    }
}

/// The reverse of the lexicographic order is a total order as well.
proof fn lemma_descending_is_total_ordering()
    ensures
        total_ordering(|a: Seq<char>, b: Seq<char>| lex_le(b, a)),
{
    let geq = |a: Seq<char>, b: Seq<char>| lex_le(b, a);
    assert forall|a: Seq<char>| #[trigger] geq(a, a) by {
        lemma_lex_le_reflexive(a);
    }
    assert forall|a: Seq<char>, b: Seq<char>| #[trigger] geq(a, b) && #[trigger] geq(b, a) implies a
        == b by {
        lemma_lex_le_antisymmetric(a, b);
    }
    assert forall|a: Seq<char>, b: Seq<char>, c: Seq<char>| #[trigger]
        geq(a, b) && #[trigger] geq(b, c) implies geq(a, c) by {
        lemma_lex_le_transitive(c, b, a);
    }
    assert forall|a: Seq<char>, b: Seq<char>| #[trigger] geq(a, b) || #[trigger] geq(b, a) by {
        lemma_lex_le_total(a, b);
    }
}

/// The three subtrees of special filesystems, in the order in which they are
/// cleared.
pub open spec fn special_subtrees(root: Seq<char>) -> Seq<Seq<char>> {
    seq![root + "/proc"@, root + "/dev"@, root + "/sys"@]
}

/// The place below the jail root onto which a line binds its source; `None`
/// for a line that is not a directive.
pub open spec fn rule_target(rule: Seq<char>, root: Seq<char>) -> Option<Seq<char>> {
    match parse_line(rule) {
        Ok(d) => Some(root + d.mountpoint),
        Err(_) => None,
    }
}

/// The targets of the directives among `rules`, in the order of the lines.
pub open spec fn rule_targets(rules: Seq<Seq<char>>, root: Seq<char>) -> Seq<Seq<char>> {
    rules.filter_map(|rule: Seq<char>| rule_target(rule, root))
}

/// What undoes a jail.
///
/// First each subtree is cleared: the mount table is read afresh, and the
/// mount points below the subtree are detached by force, in the order that
/// `recursive_umount` gives. Then each target is unmounted, in the order
/// listed. A failure never stops the teardown.
#[derive(Clone, Debug, PartialEq, Eq)]
pub struct Teardown {
    /// The subtrees of special filesystems to clear, in order.
    pub subtrees: Vec<String>,
    /// The bind-mount targets to unmount, in order: the last applied first.
    pub targets: Vec<String>,
}

/// Reads the mount points out of the text of a mount table.
pub fn mount_points(mountinfo: &str) -> (r: Vec<String>)
    ensures
        r.deep_view() == mount_table(mountinfo@),
{
    let lines = split_list(&chars_of(mountinfo), '\n');
    let ghost all = lines.deep_view();
    let ghost pick = |line: Seq<char>| entry_mount_point(line);
    let mut out: Vec<String> = Vec::new();
    let mut i: usize = 0;
    while i < lines.len()
        invariant
            i <= lines.len(),
            all == lines.deep_view(),
            pick == |line: Seq<char>| entry_mount_point(line),
            out.deep_view() == all.take(i as int).filter_map(pick),
        decreases lines.len() - i,
    {
        let fields = split_list(&lines[i], ' ');
        proof {
            assert(all[i as int] =~= lines[i as int]@);
            all.lemma_filter_map_take_succ(pick, i as int);
        }
        if fields.len() > 5 {
            assert(fields.deep_view()[4] =~= fields[4]@);
            out.push(string_of(&fields[4]));
        }
        i += 1;
    }
    assert(all.take(i as int) =~= all);
    out
}

/// The mount points to detach in order to clear everything below `tgt`, in
/// the order in which to detach them.
///
/// The result holds exactly the entries of `mounts` whose path begins with
/// `tgt`, each as often as `mounts` does, in descending lexicographic order.
pub fn recursive_umount(tgt: &str, mounts: &Vec<String>) -> (r: Vec<String>)
    ensures
        r.deep_view() == detach_order(tgt@, mounts.deep_view()),
        descending(r.deep_view()),
        r.deep_view().to_multiset() == below(tgt@, mounts.deep_view()).to_multiset(),
{
    let prefix = chars_of(tgt);
    let ghost all = mounts.deep_view();
    let ghost pred = |m: Seq<char>| tgt@.is_prefix_of(m);
    let mut selected: Vec<Vec<char>> = Vec::new();
    let mut i: usize = 0;
    proof {
        reveal(Seq::filter);
    }
    while i < mounts.len()
        invariant
            i <= mounts.len(),
            all == mounts.deep_view(),
            prefix@ == tgt@,
            pred == |m: Seq<char>| tgt@.is_prefix_of(m),
            selected.deep_view() == all.take(i as int).filter(pred),
        decreases mounts.len() - i,
    {
        let path = chars_of(mounts[i].as_str());
        proof {
            assert(all.take(i + 1) =~= all.take(i as int).push(path@));
            all.take(i as int).lemma_filter_push(path@, pred);
        }
        if has_prefix(&path, &prefix) {
            let ghost before = selected.deep_view();
            let ghost text = path@;
            selected.push(path);
            assert(selected.deep_view() =~~= before.push(text));
        }
        i += 1;
    }
    assert(all.take(i as int) =~= all);
    let sorted = sort_texts(selected);
    let ghost up = sorted.deep_view();
    let order = reverse_texts(sorted);
    proof {
        up.lemma_reverse_to_multiset();
        lemma_detach_order(tgt@, all);
    }
    strings_of(&order)
}

/// In a descending order a mount point comes after every mount point whose
/// path extends it: children are detached before their parents.
pub proof fn lemma_deeper_first(order: Seq<Seq<char>>, parent: int, child: int)
    requires
        descending(order),
        0 <= parent < order.len(),
        0 <= child < order.len(),
        order[parent].is_prefix_of(order[child]),
        order[parent] != order[child],
    ensures
        child < parent,
{
    lemma_prefix_lex_le(order[parent], order[child]);
    if parent < child {
        lemma_lex_le_antisymmetric(order[parent], order[child]);
    }
}

/// What `recursive_umount` selects: every mount point in its result lies
/// below the prefix, and every mount point below the prefix is in its result.
pub proof fn lemma_selection(prefix: Seq<char>, mounts: Seq<Seq<char>>, order: Seq<Seq<char>>)
    requires
        order.to_multiset() == below(prefix, mounts).to_multiset(),
    ensures
        forall|k: int| 0 <= k < order.len() ==> prefix.is_prefix_of(#[trigger] order[k]),
        forall|k: int|
            0 <= k < mounts.len() && prefix.is_prefix_of(#[trigger] mounts[k]) ==> order.contains(
                mounts[k],
            ),
        order.len() == below(prefix, mounts).len(),
{
    broadcast use vstd::seq_lib::group_to_multiset_ensures;
    broadcast use vstd::seq_lib::group_filter_ensures;

    let pred = |m: Seq<char>| prefix.is_prefix_of(m);
    let chosen = mounts.filter(pred);
    vstd::seq_lib::to_multiset_len(order);
    vstd::seq_lib::to_multiset_len(chosen);
    assert forall|k: int| 0 <= k < order.len() implies prefix.is_prefix_of(
        #[trigger] order[k],
    ) by {
        assert(order.to_multiset().count(order[k]) > 0);
    }
    assert forall|k: int|
        0 <= k < mounts.len() && prefix.is_prefix_of(#[trigger] mounts[k]) implies order.contains(
        mounts[k],
    ) by {
        assert(chosen.to_multiset().count(mounts[k]) > 0);
    }
}

/// The subtrees of special filesystems below `root`, in the order in which
/// they are cleared: `/proc`, then `/dev`, then `/sys`.
pub fn unmount_dev_proc_sys(root: &str) -> (r: Vec<String>)
    ensures
        r.deep_view() == special_subtrees(root@),
{
    let mut subtrees: Vec<String> = Vec::new();
    subtrees.push(followed_by(root, "/proc"));
    subtrees.push(followed_by(root, "/dev"));
    subtrees.push(followed_by(root, "/sys"));
    subtrees
}

/// The teardown of the jail at `root` that was built from the directive lines
/// `rules`.
///
/// Where `root` is the live root nothing was mounted and nothing is undone.
/// Otherwise the teardown is owed exactly when every line is a directive: it
/// then clears the three special subtrees and unmounts the target of every
/// directive, the last applied first. Where a line is no directive, the error
/// names the first such line.
pub fn unbind_mounts(rules: &Vec<String>, root: &str) -> (r: Result<Teardown, ConfigError>)
    ensures
        match r {
            Ok(t) => if root@ == live_root() {
                t.subtrees.len() == 0 && t.targets.len() == 0
            } else {
                &&& t.subtrees.deep_view() == special_subtrees(root@)
                &&& t.targets.deep_view() == rule_targets(rules.deep_view(), root@).reverse()
                &&& t.targets.len() == rules.len()
                &&& forall|i: int| 0 <= i < rules.len() ==> parse_line(#[trigger] rules[i]@) is Ok
            },
            Err(ConfigError::BadDirective { index, error }) => {
                &&& root@ != live_root()
                &&& index < rules.len()
                &&& forall|i: int| 0 <= i < index ==> parse_line(#[trigger] rules[i]@) is Ok
                &&& parse_line(rules[index as int]@) == Err::<DirectiveView, ParseError>(error)
            },
            Err(ConfigError::UnsupportedOption { .. }) => false,
        },
{
    if is_live_root(root) {
        return Ok(Teardown { subtrees: Vec::new(), targets: Vec::new() });
    }
    let ghost lines = rules.deep_view();
    let ghost pick = |rule: Seq<char>| rule_target(rule, root@);
    let mut applied: Vec<Vec<char>> = Vec::new();
    let mut i: usize = 0;
    while i < rules.len()
        invariant
            i <= rules.len(),
            lines == rules.deep_view(),
            root@ != live_root(),
            pick == |rule: Seq<char>| rule_target(rule, root@),
            applied.len() == i,
            applied.deep_view() == lines.take(i as int).filter_map(pick),
            forall|k: int| 0 <= k < i ==> parse_line(#[trigger] rules[k]@) is Ok,
        decreases rules.len() - i,
    {
        proof {
            lines.lemma_filter_map_take_succ(pick, i as int);
        }
        match parse_bm_directive(rules[i].as_str()) {
            Ok(rule) => {
                let target = chars_of(followed_by(root, rule.mountpoint.as_str()).as_str());
                let ghost before = applied.deep_view();
                let ghost text = target@;
                applied.push(target);
                assert(applied.deep_view() =~~= before + seq![text]);
            },
            Err(error) => {
                return Err(ConfigError::BadDirective { index: i, error });
            },
        }
        i += 1;
    }
    assert(lines.take(i as int) =~= lines);
    let targets = strings_of(&reverse_texts(applied));
    assert(targets.deep_view().len() == targets.len());
    Ok(Teardown { subtrees: unmount_dev_proc_sys(root), targets })
}

} // verus!
