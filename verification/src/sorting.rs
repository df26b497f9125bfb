//! Sorting lists of texts in lexicographic order.

use vstd::prelude::*;
use vstd::seq_lib::{to_multiset_build, to_multiset_insert};
use crate::text::{
    lemma_lex_le_antisymmetric, lemma_lex_le_reflexive, lemma_lex_le_total,
    lemma_lex_le_transitive, lex_le, same_text, text_le,
};

verus! {

/// Each text sorts at or before every text that comes after it.
pub open spec fn ascending(s: Seq<Seq<char>>) -> bool {
    forall|i: int, j: int| 0 <= i < j < s.len() ==> lex_le(#[trigger] s[i], #[trigger] s[j])
}

/// Each text sorts at or after every text that comes after it.
pub open spec fn descending(s: Seq<Seq<char>>) -> bool {
    forall|i: int, j: int| 0 <= i < j < s.len() ==> lex_le(#[trigger] s[j], #[trigger] s[i])
}

/// Ascending, and no text occurs twice.
pub open spec fn strictly_ascending(s: Seq<Seq<char>>) -> bool {
    forall|i: int, j: int|
        0 <= i < j < s.len() ==> lex_le(#[trigger] s[i], #[trigger] s[j]) && s[i] != s[j]
}

/// The view of a list of texts after one of them was taken off its end.
proof fn lemma_popped(before: Vec<Vec<char>>, after: Vec<Vec<char>>, x: Vec<char>)
    requires
        before@.len() > 0,
        after@ == before@.drop_last(),
        x == before@.last(),
    ensures
        before.deep_view() == after.deep_view().push(x@),
        x.deep_view() == x@,
{
}

/// The place at which `x` goes into the ascending list `out`: behind every
/// text that sorts before it.
fn insertion_point(out: &Vec<Vec<char>>, x: &Vec<char>) -> (p: usize)
    requires
        ascending(out.deep_view()),
    ensures
        p <= out.len(),
        ascending(out.deep_view().insert(p as int, x@)),
{
    let ghost s = out.deep_view();
    let mut p: usize = 0;
    while p < out.len() && !text_le(x, &out[p])
        invariant
            p <= out.len(),
            s == out.deep_view(),
            forall|k: int| 0 <= k < p ==> lex_le(#[trigger] s[k], x@),
        decreases out.len() - p,
    {
        proof {
            assert(s[p as int] =~= out[p as int]@);
            lemma_lex_le_total(x@, s[p as int]);
        }
        p += 1;
    }
    proof {
        let t = s.insert(p as int, x@);
        if p < out.len() {
            assert(s[p as int] =~= out[p as int]@);
        }
        assert forall|i: int, j: int| 0 <= i < j < t.len() implies lex_le(
            #[trigger] t[i],
            #[trigger] t[j],
        ) by {
            if i == p && j - 1 > p {
                lemma_lex_le_transitive(x@, s[p as int], s[j - 1]);
            }
        }
    }
    p
}

/// Sorts texts into ascending order. The result holds the same texts, each as
/// often as `v` does.
pub fn sort_texts(v: Vec<Vec<char>>) -> (r: Vec<Vec<char>>)
    ensures
        ascending(r.deep_view()),
        r.deep_view().to_multiset() == v.deep_view().to_multiset(),
{
    let ghost all = v.deep_view();
    let mut rest = v;
    let mut out: Vec<Vec<char>> = Vec::new();
    assert(out.deep_view().to_multiset().add(rest.deep_view().to_multiset())
        =~= all.to_multiset()) by {
        broadcast use vstd::seq_lib::group_to_multiset_ensures;

    }
    while rest.len() > 0
        invariant
            ascending(out.deep_view()),
            out.deep_view().to_multiset().add(rest.deep_view().to_multiset()) == all.to_multiset(),
        decreases rest.len(),
    {
        let ghost rest_before = rest;
        let ghost out_before = out.deep_view();
        let x = rest.pop().unwrap();
        let p = insertion_point(&out, &x);
        let ghost text = x@;
        out.insert(p, x);
        proof {
            lemma_popped(rest_before, rest, x);
            assert(out.deep_view() =~~= out_before.insert(p as int, text));
            to_multiset_insert(out_before, p as int, text);
            to_multiset_build(rest.deep_view(), text);
            assert(out.deep_view().to_multiset().add(rest.deep_view().to_multiset())
                =~= out_before.to_multiset().add(rest_before.deep_view().to_multiset()));
        }
    }
    proof {
        broadcast use vstd::seq_lib::group_to_multiset_ensures;

        assert(out.deep_view().to_multiset().add(rest.deep_view().to_multiset())
            =~= out.deep_view().to_multiset());
    }
    out
}

/// The same texts in the opposite order.
pub fn reverse_texts(v: Vec<Vec<char>>) -> (r: Vec<Vec<char>>)
    ensures
        r.deep_view() == v.deep_view().reverse(),
{
    let ghost all = v.deep_view();
    let mut rest = v;
    let mut out: Vec<Vec<char>> = Vec::new();
    while rest.len() > 0
        invariant
            rest.len() + out.len() == all.len(),
            rest.deep_view() == all.take(rest.len() as int),
            forall|k: int| 0 <= k < out.len() ==> #[trigger] out.deep_view()[k] == all[all.len() - 1 - k],
        decreases rest.len(),
    {
        let ghost rest_before = rest;
        let ghost out_before = out.deep_view();
        let x = rest.pop().unwrap();
        let ghost text = x@;
        out.push(x);
        proof {
            lemma_popped(rest_before, rest, x);
            assert(out.deep_view() =~~= out_before.push(text));
            assert(rest_before.deep_view().last() == text);
        }
    }
    out
}

/// Drops the repetitions from an ascending list: the result holds each text
/// of `v` once, in ascending order.
pub(crate) fn dedup_sorted(v: Vec<Vec<char>>) -> (r: Vec<Vec<char>>)
    requires
        ascending(v.deep_view()),
    ensures
        strictly_ascending(r.deep_view()),
        r.deep_view().to_set() == v.deep_view().to_set(),
{
    let ghost all = v.deep_view();
    // Turned round, the list gives up its texts from the first to the last.
    let mut rest = reverse_texts(v);
    let mut out: Vec<Vec<char>> = Vec::new();
    assert(rest.deep_view().len() == rest.len());
    while rest.len() > 0
        invariant
            rest.len() + out.len() <= all.len(),
            rest.deep_view() == all.reverse().take(rest.len() as int),
            ascending(all),
            strictly_ascending(out.deep_view()),
            out.deep_view().to_set() == all.take(all.len() - rest.len()).to_set(),
            rest.len() < all.len() ==> out.len() > 0 && out.deep_view().last() == all[all.len()
                - rest.len() - 1],
        decreases rest.len(),
    {
        let ghost rest_before = rest;
        let ghost kept = out.deep_view();
        let ghost i = all.len() - rest.len();
        let x = rest.pop().unwrap();
        let ghost text = x@;
        proof {
            lemma_popped(rest_before, rest, x);
            assert(rest_before.deep_view().last() == text);
            assert(all.take(i + 1) =~= all.take(i).push(text));
            all.take(i).lemma_push_to_set_commute(text);
            if out.len() > 0 {
                assert(kept.last() =~= out[out.len() - 1]@);
            }
        }
        if out.len() == 0 || !same_text(&out[out.len() - 1], &x) {
            out.push(x);
            proof {
                let now = out.deep_view();
                assert(now =~~= kept.push(text));
                kept.lemma_push_to_set_commute(text);
                assert forall|a: int, b: int| 0 <= a < b < now.len() implies lex_le(
                    #[trigger] now[a],
                    #[trigger] now[b],
                ) && now[a] != now[b] by {
                    if b == now.len() - 1 {
                        // now[a] <= the last text kept <= the new text, which
                        // differs from the last text kept
                        let last = kept.last();
                        if a == kept.len() - 1 {
                            lemma_lex_le_reflexive(last);
                        }
                        lemma_lex_le_transitive(now[a], last, text);
                        if now[a] == text {
                            lemma_lex_le_antisymmetric(last, text);
                        }
                    }
                }
            }
        } else {
            assert(all.take(i).to_set().contains(text));
        }
    }
    assert(all.take(all.len() as int) =~= all);
    out
}

} // verus!
