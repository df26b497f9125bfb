//! The bind-mount directive language.
//!
//! One directive is one line:
//!
//! ```text
//! local: <source> mountpoint: <mountpoint> [opts: <token,token,...>]
//! ```
//!
//! The line is cut into words at runs of spaces and tabs. A field value is one
//! word; a space inside a value is written `\040` and a tab `\011`, and both
//! are decoded after the words were cut.

use vstd::prelude::*;
use crate::text::{
    blank_free, chars_of, is_blank, join, join_list, lemma_join_split, piece_len, push_chars,
    push_str, spells, split, split_list, string_of, strings_of,
};

verus! {

/// One bind mount that the user asks for.
#[derive(Clone, Debug, PartialEq, Eq)]
pub struct BMDirective {
    /// Absolute path on the host, outside the jail.
    pub local: String,
    /// Absolute path, taken relative to the jail root.
    pub mountpoint: String,
    /// The option tokens in the order written; empty where the line has no
    /// `opts:` field.
    pub options: Vec<String>,
}

/// What a directive holds, as plain text.
pub struct DirectiveView {
    pub local: Seq<char>,
    pub mountpoint: Seq<char>,
    pub options: Seq<Seq<char>>,
}

impl DirectiveView {
    /// What holds of every directive: it names a source and a mountpoint.
    pub open spec fn wf(self) -> bool {
        self.local.len() > 0 && self.mountpoint.len() > 0
    }
}

impl View for BMDirective {
    type V = DirectiveView;

    open spec fn view(&self) -> DirectiveView {
        DirectiveView {
            local: self.local@,
            mountpoint: self.mountpoint@,
            options: self.options.deep_view(),
        }
    }
}

/// Why a line is not a directive.
#[derive(Clone, Copy, Debug, PartialEq, Eq, Structural)]
pub enum ParseError {
    /// The first word is not `local:`.
    MissingLocal,
    /// Nothing follows `local:`.
    MissingSource,
    /// The word after the source is not `mountpoint:`.
    MissingMountpoint,
    /// Nothing follows `mountpoint:`.
    MissingTarget,
    /// What follows the mountpoint is not `opts:` and exactly one token list.
    BadOptions,
}

/// The number of characters before the first blank of `s`.
pub open spec fn word_len(s: Seq<char>) -> nat
    decreases s.len(),
{
    if s.len() == 0 || is_blank(s[0]) {
        0
    } else {
        1 + word_len(s.skip(1))
    }
}

/// `word_len` stops at the first blank, or at the end where there is none.
pub proof fn lemma_word_len(s: Seq<char>)
    ensures
        word_len(s) <= s.len(),
        blank_free(s.take(word_len(s) as int)),
        word_len(s) < s.len() ==> is_blank(s[word_len(s) as int]),
        s.len() > 0 && !is_blank(s[0]) ==> word_len(s) > 0,
    decreases s.len(),
{
    if s.len() > 0 && !is_blank(s[0]) {
        lemma_word_len(s.skip(1));
        let n = word_len(s) as int;
        assert forall|i: int| 0 <= i < s.take(n).len() implies !is_blank(
            #[trigger] s.take(n)[i],
        ) by {
            if i > 0 {
                assert(s.take(n)[i] == s.skip(1).take(n - 1)[i - 1]);
            }
        }
    }
}

/// The words of a line: its maximal runs of characters that are neither space
/// nor tab, in order.
pub open spec fn words(s: Seq<char>) -> Seq<Seq<char>>
    decreases s.len(),
{
    if s.len() == 0 {
        Seq::empty()
    } else if is_blank(s[0]) {
        words(s.skip(1))
    } else {
        let n = word_len(s) as int;
        proof {
            lemma_word_len(s);
        }
        seq![s.take(n)] + words(s.skip(n))
    }
}

/// The character that the escape sequence at the head of `s` stands for.
pub open spec fn escape_at(s: Seq<char>) -> Option<char> {
    if s.len() >= 4 && s[0] == '\\' && s[1] == '0' && s[2] == '4' && s[3] == '0' {
        Some(' ')
    } else if s.len() >= 4 && s[0] == '\\' && s[1] == '0' && s[2] == '1' && s[3] == '1' {
        Some('\t')
    } else {
        None
    }
}

/// A field value decoded: each `\040` becomes a space and each `\011` a tab,
/// read left to right; every other character stands for itself.
pub open spec fn unescape(s: Seq<char>) -> Seq<char>
    decreases s.len(),
{
    if s.len() == 0 {
        s
    } else {
        match escape_at(s) {
            Some(c) => seq![c] + unescape(s.skip(4)),
            None => seq![s[0]] + unescape(s.skip(1)),
        }
    }
}

/// A text encoded as a field value: each space becomes `\040` and each tab
/// `\011`.
pub open spec fn escape(s: Seq<char>) -> Seq<char>
    decreases s.len(),
{
    if s.len() == 0 {
        s
    } else if s[0] == ' ' {
        seq!['\\', '0', '4', '0'] + escape(s.skip(1))
    } else if s[0] == '\t' {
        seq!['\\', '0', '1', '1'] + escape(s.skip(1))
    } else {
        seq![s[0]] + escape(s.skip(1))
    }
}

/// What a line means: the directive it spells, or the reason it spells none.
pub open spec fn parse_line(line: Seq<char>) -> Result<DirectiveView, ParseError> {
    let w = words(line);
    if w.len() < 1 || w[0] != "local:"@ {
        Err(ParseError::MissingLocal)
    } else if w.len() < 2 {
        Err(ParseError::MissingSource)
    } else if w.len() < 3 || w[2] != "mountpoint:"@ {
        Err(ParseError::MissingMountpoint)
    } else if w.len() < 4 {
        Err(ParseError::MissingTarget)
    } else if w.len() == 4 {
        Ok(
            DirectiveView {
                local: unescape(w[1]),
                mountpoint: unescape(w[3]),
                options: Seq::empty(),
            },
        )
    } else if w.len() == 6 && w[4] == "opts:"@ {
        Ok(
            DirectiveView {
                local: unescape(w[1]),
                mountpoint: unescape(w[3]),
                options: split(unescape(w[5]), ','),
            },
        )
    } else {
        Err(ParseError::BadOptions)
    }
}

/// The line that spells a directive: single spaces between the words, the
/// values encoded, and the `opts:` field only where there are options.
pub open spec fn render(d: DirectiveView) -> Seq<char> {
    let head = "local:"@ + seq![' '] + escape(d.local) + seq![' '] + "mountpoint:"@ + seq![' ']
        + escape(d.mountpoint);
    if d.options.len() == 0 {
        head
    } else {
        head + seq![' '] + "opts:"@ + seq![' '] + escape(join(d.options, ','))
    }
}

/// Cuts a line into its words.
pub fn split_words(line: &Vec<char>) -> (r: Vec<Vec<char>>)
    ensures
        r.deep_view() == words(line@),
{
    let mut out: Vec<Vec<char>> = Vec::new();
    let mut i: usize = 0;
    assert(line@.skip(0) =~= line@);
    while i < line.len()
        invariant
            i <= line.len(),
            words(line@) == out.deep_view() + words(line@.skip(i as int)),
        decreases line.len() - i,
    {
        let ghost rest = line@.skip(i as int);
        if line[i] == ' ' || line[i] == '\t' {
            assert(rest.skip(1) =~= line@.skip(i + 1));
            i += 1;
        } else {
            let start = i;
            let mut word: Vec<char> = Vec::new();
            while i < line.len() && !(line[i] == ' ' || line[i] == '\t')
                invariant
                    start <= i <= line.len(),
                    rest == line@.skip(start as int),
                    word@ == line@.subrange(start as int, i as int),
                    word_len(rest) == (i - start) + word_len(line@.skip(i as int)),
                decreases line.len() - i,
            {
                assert(line@.skip(i as int).skip(1) =~= line@.skip(i + 1));
                word.push(line[i]);
                i += 1;
            }
            proof {
                let n = (i - start) as int;
                assert(rest.take(n) =~= word@);
                assert(rest.skip(n) =~= line@.skip(i as int));
                assert(out.deep_view().push(word@) + words(line@.skip(i as int))
                    =~= out.deep_view() + words(rest));
            }
            let ghost before = out.deep_view();
            out.push(word);
            assert(out.deep_view() =~~= before.push(word@));
        }
    }
    out
}

/// Decodes a field value.
pub fn unescape_text(w: &Vec<char>) -> (r: Vec<char>)
    ensures
        r@ == unescape(w@),
{
    let mut out: Vec<char> = Vec::new();
    let mut i: usize = 0;
    assert(w@.skip(0) =~= w@);
    while i < w.len()
        invariant
            i <= w.len(),
            unescape(w@) == out@ + unescape(w@.skip(i as int)),
        decreases w.len() - i,
    {
        let ghost rest = w@.skip(i as int);
        let escaped = w.len() - i >= 4 && w[i] == '\\' && w[i + 1] == '0';
        if escaped && w[i + 2] == '4' && w[i + 3] == '0' {
            assert(rest.skip(4) =~= w@.skip(i + 4));
            out.push(' ');
            i += 4;
        } else if escaped && w[i + 2] == '1' && w[i + 3] == '1' {
            assert(rest.skip(4) =~= w@.skip(i + 4));
            out.push('\t');
            i += 4;
        } else {
            assert(rest.skip(1) =~= w@.skip(i + 1));
            out.push(w[i]);
            i += 1;
        }
    }
    out
}

/// Encodes a text as a field value.
pub fn escape_text(v: &Vec<char>) -> (r: Vec<char>)
    ensures
        r@ == escape(v@),
{
    let mut out: Vec<char> = Vec::new();
    let mut i: usize = 0;
    assert(v@.skip(0) =~= v@);
    while i < v.len()
        invariant
            i <= v.len(),
            escape(v@) == out@ + escape(v@.skip(i as int)),
        decreases v.len() - i,
    {
        let ghost rest = v@.skip(i as int);
        assert(rest.skip(1) =~= v@.skip(i + 1));
        let c = v[i];
        if c == ' ' || c == '\t' {
            out.push('\\');
            out.push('0');
            out.push(if c == ' ' { '4' } else { '1' });
            out.push(if c == ' ' { '0' } else { '1' });
        } else {
            out.push(c);
        }
        i += 1;
    }
    out
}

/// Parses one directive line.
///
/// Returns the directive that the line spells, or the reason why it spells
/// none: the result is `parse_line` of the line's text.
pub fn parse_bm_directive(line: &str) -> (r: Result<BMDirective, ParseError>)
    ensures
        match r {
            Ok(d) => parse_line(line@) == Ok::<DirectiveView, ParseError>(d@) && d@.wf(),
            Err(e) => parse_line(line@) == Err::<DirectiveView, ParseError>(e),
        },
{
    proof {
        lemma_parsed_directive_wf(line@);
    }
    let text = chars_of(line);
    let w = split_words(&text);
    proof {
        assert forall|k: int| 0 <= k < w.len() implies (#[trigger] w[k])@ == words(line@)[k] by {
        }
    }
    if w.len() < 1 || !spells(&w[0], "local:") {
        return Err(ParseError::MissingLocal);
    }
    if w.len() < 2 {
        return Err(ParseError::MissingSource);
    }
    if w.len() < 3 || !spells(&w[2], "mountpoint:") {
        return Err(ParseError::MissingMountpoint);
    }
    if w.len() < 4 {
        return Err(ParseError::MissingTarget);
    }
    let local = string_of(&unescape_text(&w[1]));
    let mountpoint = string_of(&unescape_text(&w[3]));
    if w.len() == 4 {
        let d = BMDirective { local, mountpoint, options: Vec::new() };
        assert(d@.options =~= Seq::<Seq<char>>::empty());
        return Ok(d);
    }
    if w.len() == 6 && spells(&w[4], "opts:") {
        let options = strings_of(&split_list(&unescape_text(&w[5]), ','));
        return Ok(BMDirective { local, mountpoint, options });
    }
    Err(ParseError::BadOptions)
}

impl BMDirective {
    /// The line that spells this directive.
    pub fn to_line(&self) -> (r: String)
        ensures
            r@ == render(self@),
    {
        let mut out: Vec<char> = Vec::new();
        push_str(&mut out, "local:");
        out.push(' ');
        push_chars(&mut out, &escape_text(&chars_of(self.local.as_str())));
        out.push(' ');
        push_str(&mut out, "mountpoint:");
        out.push(' ');
        push_chars(&mut out, &escape_text(&chars_of(self.mountpoint.as_str())));
        if self.options.len() > 0 {
            out.push(' ');
            push_str(&mut out, "opts:");
            out.push(' ');
            push_chars(&mut out, &escape_text(&join_list(&self.options, ',')));
        }
        string_of(&out)
    }
}

/// A line that is a directive names a source and a mountpoint: neither is
/// empty once decoded.
pub proof fn lemma_parsed_directive_wf(line: Seq<char>)
    ensures
        parse_line(line) matches Ok(d) ==> d.wf(),
{
    if parse_line(line) is Ok {
        lemma_words_are_fields(line, 1);
        lemma_words_are_fields(line, 3);
    }
}

/// Encoding undoes decoding on a field value: a text without space or tab is
/// what its decoded form encodes to.
pub proof fn lemma_escape_unescape(w: Seq<char>)
    requires
        blank_free(w),
    ensures
        escape(unescape(w)) == w,
    decreases w.len(),
{
    if w.len() > 0 {
        let rest = if escape_at(w) is Some {
            w.skip(4)
        } else {
            w.skip(1)
        };
        lemma_escape_unescape(rest);
        assert(unescape(w).skip(1) =~= unescape(rest));
    }
}

/// Every word is non-empty and holds neither space nor tab.
pub proof fn lemma_words_are_fields(s: Seq<char>, k: int)
    requires
        0 <= k < words(s).len(),
    ensures
        words(s)[k].len() > 0,
        blank_free(words(s)[k]),
    decreases s.len(),
{
    if s.len() > 0 {
        if is_blank(s[0]) {
            lemma_words_are_fields(s.skip(1), k);
        } else {
            lemma_word_len(s);
            let n = word_len(s) as int;
            if k > 0 {
                lemma_words_are_fields(s.skip(n), k - 1);
            }
        }
    }
}

/// A field followed by nothing, or by a blank and more text, is the first
/// word of the whole.
proof fn lemma_words_after_field(w: Seq<char>, rest: Seq<char>)
    requires
        w.len() > 0,
        blank_free(w),
        rest.len() == 0 || is_blank(rest[0]),
    ensures
        words(w + rest) == seq![w] + words(rest),
{
    let s = w + rest;
    assert(word_len(s) == w.len()) by {
        lemma_word_len_of_field(w, rest);
    }
    assert(s.take(w.len() as int) =~= w);
    assert(s.skip(w.len() as int) =~= rest);
}

/// A field followed by nothing, or by a blank and more text, is as long as
/// the first word of the whole.
proof fn lemma_word_len_of_field(w: Seq<char>, rest: Seq<char>)
    requires
        blank_free(w),
        rest.len() == 0 || is_blank(rest[0]),
    ensures
        word_len(w + rest) == w.len(),
    decreases w.len(),
{
    let s = w + rest;
    if w.len() > 0 {
        assert(s.skip(1) =~= w.skip(1) + rest);
        lemma_word_len_of_field(w.skip(1), rest);
    }
}

/// Fields written with single spaces between them are cut back into the same
/// fields.
pub proof fn lemma_words_of_joined_fields(fields: Seq<Seq<char>>)
    requires
        forall|k: int|
            0 <= k < fields.len() ==> (#[trigger] fields[k]).len() > 0 && blank_free(fields[k]),
    ensures
        words(join(fields, ' ')) == fields,
    decreases fields.len(),
{
    if fields.len() == 1 {
        lemma_words_after_field(fields[0], Seq::empty());
    } else if fields.len() > 1 {
        let tail = fields.skip(1);
        lemma_words_of_joined_fields(tail);
        let rest = seq![' '] + join(tail, ' ');
        assert(join(fields, ' ') =~= fields[0] + rest);
        lemma_words_after_field(fields[0], rest);
        assert(rest.skip(1) =~= join(tail, ' '));
    }
}

/// Writing a parsed directive out and parsing the line again gives the same
/// directive: whatever line spells `d`, the line `render(d)` spells `d` too.
pub proof fn lemma_parse_render_round_trip(line: Seq<char>)
    ensures
        parse_line(line) matches Ok(d) ==> parse_line(render(d)) == Ok::<
            DirectiveView,
            ParseError,
        >(d),
{
    if let Ok(d) = parse_line(line) {
        let w = words(line);
        assert forall|k: int| 0 <= k < w.len() implies (#[trigger] w[k]).len() > 0 && blank_free(
            w[k],
        ) by {
            lemma_words_are_fields(line, k);
        }
        lemma_escape_unescape(w[1]);
        lemma_escape_unescape(w[3]);
        if w.len() == 4 {
            assert(render(d) =~= join(w, ' ')) by {
                reveal_with_fuel(join, 5);
            }
        } else {
            lemma_escape_unescape(w[5]);
            lemma_join_split(unescape(w[5]), ',');
            assert(render(d) =~= join(w, ' ')) by {
                reveal_with_fuel(join, 7);
            }
        }
        lemma_words_of_joined_fields(w);
    }
}

/// No escape sequence can be read out of `s`, at whatever place.
pub open spec fn escape_free(s: Seq<char>) -> bool {
    forall|i: int| 0 <= i < s.len() ==> escape_at(#[trigger] s.skip(i)) is None
}

/// The directives that a line can spell: the source and the mountpoint are
/// not empty, the options, where there are any, are not one empty token and
/// hold no comma, and no value holds the text of an escape sequence.
pub open spec fn expressible(d: DirectiveView) -> bool {
    &&& d.local.len() > 0
    &&& escape_free(d.local)
    &&& d.mountpoint.len() > 0
    &&& escape_free(d.mountpoint)
    &&& d.options.len() > 0 ==> {
        &&& join(d.options, ',').len() > 0
        &&& escape_free(join(d.options, ','))
        &&& forall|k: int| 0 <= k < d.options.len() ==> !(#[trigger] d.options[k]).contains(',')
    }
}

/// What is encoded holds neither space nor tab, and is empty only where the
/// text is.
proof fn lemma_escape_is_field(s: Seq<char>)
    ensures
        blank_free(escape(s)),
        s.len() > 0 ==> escape(s).len() > 0,
    decreases s.len(),
{
    if s.len() > 0 {
        lemma_escape_is_field(s.skip(1));
        let e = escape(s);
        let rest = escape(s.skip(1));
        assert forall|i: int| 0 <= i < e.len() implies !is_blank(#[trigger] e[i]) by {
            let head = e.len() - rest.len();
            if i >= head {
                assert(e[i] == rest[i - head]);
            }
        }
    }
}

/// Where the encoded text does not begin with a backslash, it begins with the
/// first character of the text itself.
proof fn lemma_escape_head(s: Seq<char>)
    requires
        s.len() > 0,
    ensures
        escape(s).len() > 0,
        escape(s)[0] != '\\' ==> escape(s) == seq![s[0]] + escape(s.skip(1)) && escape(s)[0]
            == s[0],
{
}

/// Decoding undoes encoding: a text out of which no escape sequence can be
/// read is what its encoded form decodes to.
pub proof fn lemma_unescape_escape(s: Seq<char>)
    requires
        escape_free(s),
    ensures
        unescape(escape(s)) == s,
    decreases s.len(),
{
    if s.len() > 0 {
        let rest = s.skip(1);
        assert(escape_free(rest)) by {
            assert forall|i: int| 0 <= i < rest.len() implies escape_at(
                #[trigger] rest.skip(i),
            ) is None by {
                assert(rest.skip(i) =~= s.skip(i + 1));
            }
        }
        lemma_unescape_escape(rest);
        let e = escape(s);
        if s[0] == ' ' || s[0] == '\t' {
            assert(e.skip(4) =~= escape(rest));
        } else {
            assert(e.skip(1) =~= escape(rest));
            assert(escape_at(e) is None) by {
                if s[0] == '\\' && e.len() >= 4 && e[1] == '0' {
                    // the three characters after the backslash are those of
                    // the text itself, which holds no escape sequence
                    assert(s.skip(0) =~= s);
                    lemma_escape_head(rest);
                    let rest2 = rest.skip(1);
                    if rest2.len() > 0 && (e[2] == '4' || e[2] == '1') {
                        lemma_escape_head(rest2);
                        let rest3 = rest2.skip(1);
                        if rest3.len() > 0 && (e[3] == '0' || e[3] == '1') {
                            lemma_escape_head(rest3);
                        }
                    }
                }
            }
        }
    }
}

/// Cutting what was joined gives the pieces back, where there is a piece and
/// no piece holds the separator.
pub proof fn lemma_split_join(pieces: Seq<Seq<char>>, sep: char)
    requires
        pieces.len() > 0,
        forall|k: int| 0 <= k < pieces.len() ==> !(#[trigger] pieces[k]).contains(sep),
    ensures
        split(join(pieces, sep), sep) == pieces,
    decreases pieces.len(),
{
    let first = pieces[0];
    if pieces.len() == 1 {
        lemma_piece_len_of_piece(first, Seq::empty(), sep);
    } else {
        let tail = pieces.skip(1);
        lemma_split_join(tail, sep);
        let rest = seq![sep] + join(tail, sep);
        let whole = join(pieces, sep);
        assert(whole =~= first + rest);
        lemma_piece_len_of_piece(first, rest, sep);
        assert(whole.take(first.len() as int) =~= first);
        assert(whole.skip(first.len() as int + 1) =~= join(tail, sep));
    }
}

/// A piece without separator, followed by nothing or by a separator and more,
/// is as long as the first piece of the whole.
proof fn lemma_piece_len_of_piece(piece: Seq<char>, rest: Seq<char>, sep: char)
    requires
        !piece.contains(sep),
        rest.len() == 0 || rest[0] == sep,
    ensures
        piece_len(piece + rest, sep) == piece.len(),
    decreases piece.len(),
{
    let s = piece + rest;
    if piece.len() > 0 {
        assert(s.skip(1) =~= piece.skip(1) + rest);
        assert(!piece.skip(1).contains(sep)) by {
            if piece.skip(1).contains(sep) {
                let i = choose|i: int| 0 <= i < piece.skip(1).len() && piece.skip(1)[i] == sep;
                assert(piece[i + 1] == sep);
            }
        }
        lemma_piece_len_of_piece(piece.skip(1), rest, sep);
    }
}

/// Reading what was written gives the directive back: the line that
/// `render` writes for a directive that a line can spell is parsed to the
/// same directive.
pub proof fn lemma_render_parse_round_trip(d: DirectiveView)
    requires
        expressible(d),
    ensures
        parse_line(render(d)) == Ok::<DirectiveView, ParseError>(d),
{
    reveal_strlit("local:");
    reveal_strlit("mountpoint:");
    reveal_strlit("opts:");
    lemma_escape_is_field(d.local);
    lemma_escape_is_field(d.mountpoint);
    lemma_unescape_escape(d.local);
    lemma_unescape_escape(d.mountpoint);
    let head = seq!["local:"@, escape(d.local), "mountpoint:"@, escape(d.mountpoint)];
    if d.options.len() == 0 {
        assert(render(d) =~= join(head, ' ')) by {
            reveal_with_fuel(join, 5);
        }
        lemma_words_of_joined_fields(head);
        assert(d.options =~= Seq::<Seq<char>>::empty());
    } else {
        let list = join(d.options, ',');
        lemma_escape_is_field(list);
        lemma_unescape_escape(list);
        lemma_split_join(d.options, ',');
        let fields = head.push("opts:"@).push(escape(list));
        assert(render(d) =~= join(fields, ' ')) by {
            reveal_with_fuel(join, 7);
        }
        lemma_words_of_joined_fields(fields);
    }
}

} // verus!
