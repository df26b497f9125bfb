//! Text as sequences of characters.
//!
//! Every contract in this crate speaks of a string through its view, a
//! `Seq<char>`. The functions here move between `&str`/`String` and
//! `Vec<char>`, on which the scanners and the sort work, and define the order
//! in which mount points are compared.

use vstd::prelude::*;

verus! {

/// `String::push` appends one character at the end of the string.
pub assume_specification[ String::push ](s: &mut String, ch: char)
    ensures
        final(s)@ == old(s)@.push(ch),
;

/// A space or a horizontal tab: the two characters that separate fields.
pub open spec fn is_blank(c: char) -> bool {
    c == ' ' || c == '\t'
}

/// No character of `s` is a space or a tab.
pub open spec fn blank_free(s: Seq<char>) -> bool {
    forall|i: int| 0 <= i < s.len() ==> !is_blank(#[trigger] s[i])
}

/// Lexicographic order on texts, characters compared by code point. A proper
/// prefix sorts before every text that extends it.
pub open spec fn lex_le(a: Seq<char>, b: Seq<char>) -> bool
    decreases a.len(),
{
    if a.len() == 0 {
        true
    } else if b.len() == 0 {
        false
    } else if a[0] == b[0] {
        lex_le(a.skip(1), b.skip(1))
    } else {
        (a[0] as int) < (b[0] as int)
    }
}

/// Every text sorts at or before itself.
pub proof fn lemma_lex_le_reflexive(a: Seq<char>)
    ensures
        lex_le(a, a),
    decreases a.len(),
{
    if a.len() > 0 {
        lemma_lex_le_reflexive(a.skip(1));
    }
}

/// Of two texts one sorts at or before the other.
pub proof fn lemma_lex_le_total(a: Seq<char>, b: Seq<char>)
    ensures
        lex_le(a, b) || lex_le(b, a),
    decreases a.len(),
{
    if a.len() > 0 && b.len() > 0 {
        if a[0] == b[0] {
            lemma_lex_le_total(a.skip(1), b.skip(1));
        }
    }
}

/// Two texts that sort at or before each other are the same text.
pub proof fn lemma_lex_le_antisymmetric(a: Seq<char>, b: Seq<char>)
    requires
        lex_le(a, b),
        lex_le(b, a),
    ensures
        a == b,
    decreases a.len(),
{
    if a.len() > 0 && b.len() > 0 {
        lemma_lex_le_antisymmetric(a.skip(1), b.skip(1));
        assert(a =~= seq![a[0]] + a.skip(1));
    }
}

/// What sorts at or before a text sorts at or before all that the text
/// sorts at or before.
pub proof fn lemma_lex_le_transitive(a: Seq<char>, b: Seq<char>, c: Seq<char>)
    requires
        lex_le(a, b),
        lex_le(b, c),
    ensures
        lex_le(a, c),
    decreases a.len(),
{
    if a.len() > 0 && b.len() > 0 && c.len() > 0 {
        if a[0] == b[0] && b[0] == c[0] {
            lemma_lex_le_transitive(a.skip(1), b.skip(1), c.skip(1));
        }
    }
}

/// A prefix never sorts after the text it begins.
pub proof fn lemma_prefix_lex_le(p: Seq<char>, s: Seq<char>)
    requires
        p.is_prefix_of(s),
    ensures
        lex_le(p, s),
    decreases p.len(),
{
    if p.len() > 0 {
        lemma_prefix_lex_le(p.skip(1), s.skip(1));
    }
}

/// The characters of `s`, in order.
pub fn chars_of(s: &str) -> (v: Vec<char>)
    ensures
        v@ == s@,
{
    let mut v: Vec<char> = Vec::new();
    for c in it: s.chars()
        invariant
            it.seq() == s@,
            v@ == s@.take(it.index()),
    {
        v.push(c);
    }
    v
}

/// The string that spells `v`.
pub fn string_of(v: &Vec<char>) -> (s: String)
    ensures
        s@ == v@,
{
    let mut s = String::new();
    let mut i: usize = 0;
    while i < v.len()
        invariant
            i <= v.len(),
            s@ == v@.take(i as int),
        decreases v.len() - i,
    {
        s.push(v[i]);
        i += 1;
    }
    s
}

/// The text `a` followed by the text `b`.
pub fn followed_by(a: &str, b: &str) -> (s: String)
    ensures
        s@ == a@ + b@,
{
    let mut s = a.to_owned();
    for c in it: b.chars()
        invariant
            it.seq() == b@,
            s@ == a@ + b@.take(it.index()),
    {
        s.push(c);
    }
    s
}

/// Whether two texts hold the same characters.
pub fn same_text(a: &Vec<char>, b: &Vec<char>) -> (r: bool)
    ensures
        r == (a@ == b@),
{
    if a.len() != b.len() {
        return false;
    }
    let mut i: usize = 0;
    while i < a.len()
        invariant
            i <= a.len() == b.len(),
            a@.take(i as int) == b@.take(i as int),
        decreases a.len() - i,
    {
        if a[i] != b[i] {
            return false;
        }
        i += 1;
    }
    assert(a@ =~= a@.take(a.len() as int));
    assert(b@ =~= b@.take(b.len() as int));
    true
}

/// Whether `v` spells exactly `word`.
pub fn spells(v: &Vec<char>, word: &str) -> (r: bool)
    ensures
        r == (v@ == word@),
{
    let mut i: usize = 0;
    for c in it: word.chars()
        invariant
            it.seq() == word@,
            i == it.index(),
            i <= v.len(),
            v@.take(i as int) == word@.take(i as int),
    {
        if i >= v.len() || v[i] != c {
            return false;
        }
        i += 1;
    }
    assert(word@ =~= word@.take(i as int));
    assert(v@.take(v.len() as int) =~= v@);
    i == v.len()
}

/// Whether `s` begins with `p`.
pub fn has_prefix(s: &Vec<char>, p: &Vec<char>) -> (r: bool)
    ensures
        r == p@.is_prefix_of(s@),
{
    if p.len() > s.len() {
        return false;
    }
    let mut i: usize = 0;
    while i < p.len()
        invariant
            i <= p.len() <= s.len(),
            p@.take(i as int) == s@.take(i as int),
        decreases p.len() - i,
    {
        if p[i] != s[i] {
            return false;
        }
        i += 1;
    }
    true
}

/// Whether `a` sorts at or before `b`.
pub fn text_le(a: &Vec<char>, b: &Vec<char>) -> (r: bool)
    ensures
        r == lex_le(a@, b@),
{
    let mut i: usize = 0;
    assert(a@.skip(0) =~= a@ && b@.skip(0) =~= b@);
    while i < a.len() && i < b.len()
        invariant
            i <= a.len(),
            i <= b.len(),
            lex_le(a@, b@) == lex_le(a@.skip(i as int), b@.skip(i as int)),
        decreases a.len() - i,
    {
        let x = a[i];
        let y = b[i];
        if x != y {
            return x < y;
        }
        assert(a@.skip(i as int).skip(1) =~= a@.skip(i + 1));
        assert(b@.skip(i as int).skip(1) =~= b@.skip(i + 1));
        i += 1;
    }
    i == a.len()
}

/// Appends the characters of `t` to `out`.
pub fn push_str(out: &mut Vec<char>, t: &str)
    ensures
        final(out)@ == old(out)@ + t@,
{
    for c in it: t.chars()
        invariant
            it.seq() == t@,
            out@ == old(out)@ + t@.take(it.index()),
    {
        out.push(c);
    }
}

/// Appends the characters of `t` to `out`.
pub fn push_chars(out: &mut Vec<char>, t: &Vec<char>)
    ensures
        final(out)@ == old(out)@ + t@,
{
    let mut i: usize = 0;
    while i < t.len()
        invariant
            i <= t.len(),
            out@ == old(out)@ + t@.take(i as int),
        decreases t.len() - i,
    {
        out.push(t[i]);
        i += 1;
    }
}

/// The number of characters before the first `sep` of `s`.
pub open spec fn piece_len(s: Seq<char>, sep: char) -> nat
    decreases s.len(),
{
    if s.len() == 0 || s[0] == sep {
        0
    } else {
        1 + piece_len(s.skip(1), sep)
    }
}

/// `piece_len` stops at the first separator, or at the end where there is
/// none.
pub proof fn lemma_piece_len(s: Seq<char>, sep: char)
    ensures
        piece_len(s, sep) <= s.len(),
        !s.take(piece_len(s, sep) as int).contains(sep),
        piece_len(s, sep) < s.len() ==> s[piece_len(s, sep) as int] == sep,
    decreases s.len(),
{
    if s.len() > 0 && s[0] != sep {
        lemma_piece_len(s.skip(1), sep);
        let n = piece_len(s, sep) as int;
        assert forall|i: int| 0 <= i < s.take(n).len() implies #[trigger] s.take(n)[i] != sep by {
            if i > 0 {
                assert(s.skip(1).take(n - 1)[i - 1] == s.take(n)[i]);
            }
        }
    }
}

/// The pieces of `s` between occurrences of `sep`. There is always at least
/// one piece; a piece may be empty.
pub open spec fn split(s: Seq<char>, sep: char) -> Seq<Seq<char>>
    decreases s.len(),
{
    let n = piece_len(s, sep) as int;
    if 0 <= n < s.len() {
        seq![s.take(n)] + split(s.skip(n + 1), sep)
    } else {
        seq![s]
    }
}

/// The pieces written one after the other with `sep` between them.
pub open spec fn join(pieces: Seq<Seq<char>>, sep: char) -> Seq<char>
    decreases pieces.len(),
{
    if pieces.len() == 0 {
        Seq::empty()
    } else if pieces.len() == 1 {
        pieces[0]
    } else {
        pieces[0] + seq![sep] + join(pieces.skip(1), sep)
    }
}

/// Cuts a text at every `sep`.
pub fn split_list(s: &Vec<char>, sep: char) -> (r: Vec<Vec<char>>)
    ensures
        r.deep_view() == split(s@, sep),
{
    let mut out: Vec<Vec<char>> = Vec::new();
    let mut piece: Vec<char> = Vec::new();
    let mut start: usize = 0;
    let mut i: usize = 0;
    assert(s@.skip(0) =~= s@);
    while i < s.len()
        invariant
            start <= i <= s.len(),
            piece@ == s@.subrange(start as int, i as int),
            split(s@, sep) == out.deep_view() + split(s@.skip(start as int), sep),
            piece_len(s@.skip(start as int), sep) == (i - start) + piece_len(
                s@.skip(i as int),
                sep,
            ),
        decreases s.len() - i,
    {
        let ghost rest = s@.skip(start as int);
        assert(s@.skip(i as int).skip(1) =~= s@.skip(i + 1));
        if s[i] == sep {
            proof {
                let n = (i - start) as int;
                assert(rest.take(n) =~= piece@);
                assert(rest.skip(n + 1) =~= s@.skip(i + 1));
                assert(out.deep_view().push(piece@) + split(s@.skip(i + 1), sep)
                    =~= out.deep_view() + split(rest, sep));
            }
            let ghost before = out.deep_view();
            let ghost cut = piece@;
            out.push(piece);
            assert(out.deep_view() =~~= before.push(cut));
            piece = Vec::new();
            i += 1;
            start = i;
        } else {
            piece.push(s[i]);
            i += 1;
        }
    }
    let ghost before = out.deep_view();
    let ghost cut = piece@;
    out.push(piece);
    assert(out.deep_view() =~~= before.push(cut));
    out
}

/// The strings that spell the given texts.
pub fn strings_of(texts: &Vec<Vec<char>>) -> (r: Vec<String>)
    ensures
        r.deep_view() == texts.deep_view(),
{
    let mut out: Vec<String> = Vec::new();
    let mut k: usize = 0;
    while k < texts.len()
        invariant
            k <= texts.len(),
            out.len() == k,
            forall|j: int| 0 <= j < k ==> (#[trigger] out[j])@ == texts[j]@,
        decreases texts.len() - k,
    {
        out.push(string_of(&texts[k]));
        k += 1;
    }
    assert(out.deep_view() =~~= texts.deep_view());
    out
}

/// A copy of the given strings.
pub fn copy_strings(strings: &Vec<String>) -> (r: Vec<String>)
    ensures
        r.deep_view() == strings.deep_view(),
{
    let mut out: Vec<String> = Vec::new();
    let mut k: usize = 0;
    while k < strings.len()
        invariant
            k <= strings.len(),
            out.len() == k,
            forall|j: int| 0 <= j < k ==> (#[trigger] out[j])@ == strings[j]@,
        decreases strings.len() - k,
    {
        out.push(strings[k].clone());
        k += 1;
    }
    out
}

/// The characters of each of the given strings.
pub fn texts_of(strings: &Vec<String>) -> (r: Vec<Vec<char>>)
    ensures
        r.deep_view() == strings.deep_view(),
{
    let mut out: Vec<Vec<char>> = Vec::new();
    let mut k: usize = 0;
    while k < strings.len()
        invariant
            k <= strings.len(),
            out.len() == k,
            forall|j: int| 0 <= j < k ==> (#[trigger] out[j])@ == strings[j]@,
        decreases strings.len() - k,
    {
        out.push(chars_of(strings[k].as_str()));
        k += 1;
    }
    assert(out.deep_view() =~~= strings.deep_view());
    out
}

/// One more piece at the end of a list adds the separator and the piece to
/// what the list joins to.
pub proof fn lemma_join_push(pieces: Seq<Seq<char>>, last: Seq<char>, sep: char)
    ensures
        join(pieces.push(last), sep) == if pieces.len() == 0 {
            last
        } else {
            join(pieces, sep) + seq![sep] + last
        },
    decreases pieces.len(),
{
    let all = pieces.push(last);
    if pieces.len() > 0 {
        let tail = pieces.skip(1);
        assert(all.skip(1) =~= tail.push(last));
        lemma_join_push(tail, last, sep);
    }
}

/// The pieces written one after the other with `sep` between them.
pub fn join_list(pieces: &Vec<String>, sep: char) -> (r: Vec<char>)
    ensures
        r@ == join(pieces.deep_view(), sep),
{
    let ghost all = pieces.deep_view();
    let mut out: Vec<char> = Vec::new();
    let mut k: usize = 0;
    while k < pieces.len()
        invariant
            k <= pieces.len(),
            all == pieces.deep_view(),
            out@ == join(all.take(k as int), sep),
        decreases pieces.len() - k,
    {
        proof {
            assert(all.take(k + 1) =~= all.take(k as int).push(pieces[k as int]@));
            lemma_join_push(all.take(k as int), pieces[k as int]@, sep);
        }
        if k > 0 {
            out.push(sep);
        }
        push_str(&mut out, pieces[k].as_str());
        k += 1;
    }
    assert(all.take(k as int) =~= all);
    out
}

/// Joining the pieces of a text with the separator it was cut at gives the
/// text back.
pub proof fn lemma_join_split(s: Seq<char>, sep: char)
    ensures
        split(s, sep).len() >= 1,
        join(split(s, sep), sep) == s,
    decreases s.len(),
{
    let n = piece_len(s, sep) as int;
    lemma_piece_len(s, sep);
    if n < s.len() {
        let rest = s.skip(n + 1);
        lemma_join_split(rest, sep);
        let pieces = split(s, sep);
        assert(pieces.skip(1) =~= split(rest, sep));
    }
}

} // verus!
