//! The position index of one note revision: it owns the revision's text
//! and translates spans of native positions into client line/character
//! ranges.  The translation itself is done by the `lsp_document` crate;
//! this module models the text's line structure so that every call into
//! that crate stays within its defined behaviour.

use vstd::prelude::*;
use lsp_document::TextAdapter;
use crate::model::{Pos, Span};

verus! {

/// The UTF-8 encoded width of one character, in bytes.
pub open spec fn utf8_len(c: char) -> nat {
    if (c as u32) < 0x80 {
        1
    } else if (c as u32) < 0x800 {
        2
    } else if (c as u32) < 0x10000 {
        3
    } else {
        4
    }
}

/// The UTF-8 encoded length of a text, in bytes.
pub open spec fn byte_len(s: Seq<char>) -> nat
    decreases s.len(),
{
    if s.len() == 0 {
        0
    } else {
        utf8_len(s.first()) + byte_len(s.drop_first())
    }
}

/// Splits a text into lines, each line keeping its terminator.  A line
/// ends at a `'\n'`, or at a `'\r'` that is not followed by a `'\n'`.
/// `cur` carries the characters of the line being accumulated.
pub open spec fn split_lines(s: Seq<char>, cur: Seq<char>) -> Seq<Seq<char>>
    decreases s.len(),
{
    if s.len() == 0 {
        if cur.len() == 0 {
            Seq::empty()
        } else {
            seq![cur]
        }
    } else {
        let c = s.first();
        if c == '\n' || (c == '\r' && (s.len() == 1 || s[1] != '\n')) {
            seq![cur.push(c)] + split_lines(s.drop_first(), Seq::empty())
        } else {
            split_lines(s.drop_first(), cur.push(c))
        }
    }
}

/// The lines of a text as the position index sees them: the content lines
/// followed by one artificial empty line past the end.
pub open spec fn lines_of(s: Seq<char>) -> Seq<Seq<char>> {
    split_lines(s, Seq::empty()) + seq![Seq::<char>::empty()]
}

/// `col` is a valid byte offset into `line`: it lands on a character
/// boundary, the end of the line included.
pub open spec fn col_ok(line: Seq<char>, col: nat) -> bool {
    exists|k: int| 0 <= k <= line.len() && byte_len(line.take(k)) == col
}

/// A position the index can be asked about without leaving the defined
/// behaviour of the translation: either its line is past the text (the
/// translation then fails), or its column sits on a character boundary
/// of that line.
pub open spec fn pos_ok(text: Seq<char>, p: Pos) -> bool {
    p.line >= lines_of(text).len() || col_ok(lines_of(text)[p.line as int], p.col as nat)
}

/// Both endpoints of the span are valid for `text` in the sense of [`pos_ok`].
pub open spec fn span_ok(text: Seq<char>, span: Span) -> bool {
    pos_ok(text, span.start) && pos_ok(text, span.end)
}

/// A client position: 0-indexed line and 0-indexed UTF-16 code-unit offset.
#[derive(Clone, Copy, Debug, PartialEq, Eq, Structural)]
pub struct LspPos {
    pub line: u32,
    pub character: u32,
}

/// A client range: half-open, between two client positions.
#[derive(Clone, Copy, Debug, PartialEq, Eq, Structural)]
pub struct LspRange {
    pub start: LspPos,
    pub end: LspPos,
}

#[verifier::external_type_specification]
#[verifier::external_body]
#[verifier::reject_recursive_types(T)]
pub struct ExIndexedText<T>(lsp_document::IndexedText<T>) where T: std::borrow::Borrow<str>;

/// What the index's translation answers for a span of a given text.  The
/// answer is a pure function of the text and the span alone; its exact
/// value (UTF-16 re-encoding of the columns) is left unstated here.
pub uninterp spec fn lsp_range_of(text: Seq<char>, span: Span) -> Option<LspRange>;

/// A position index over one revision of a note's text.
pub struct TextIndex {
    ix: lsp_document::IndexedText<String>,
    text_rep: Vec<char>,
}

impl TextIndex {
    /// The text this index was built over.
    pub closed spec fn text(&self) -> Seq<char> {
        self.text_rep@
    }

    /// Relies on `lsp_document::IndexedText::new`: it stores the given
    /// text and computes its line ranges from it alone.  The byte-length
    /// bound keeps those ranges within the `u32` offsets the crate stores
    /// them in.
    #[verifier::external_body]
    pub fn new(text: String) -> (r: TextIndex)
        requires
            byte_len(text@) < 0x1_0000_0000,
        ensures
            r.text() == text@,
    {
        let rep: Vec<char> = text.chars().collect();
        TextIndex { ix: lsp_document::IndexedText::new(text), text_rep: rep }
    }

    /// Relies on `lsp_document::TextAdapter::range_to_lsp_range` (with
    /// `pos_to_lsp_pos`): for a span whose endpoints satisfy [`pos_ok`]
    /// it returns, without panicking, a value determined by the text and
    /// the span alone — `Some` exactly when both endpoints' lines exist.
    #[verifier::external_body]
    pub fn to_lsp_range(&self, span: &Span) -> (r: Option<LspRange>)
        requires
            span_ok(self.text(), *span),
        ensures
            r == lsp_range_of(self.text(), *span),
            r is Some <==> (span.start.line < lines_of(self.text()).len() && span.end.line
                < lines_of(self.text()).len()),
    {
        let native = lsp_document::Pos::new(span.start.line, span.start.col)
            ..lsp_document::Pos::new(span.end.line, span.end.col);
        match self.ix.range_to_lsp_range(&native) {
            Some(rg) => Some(LspRange {
                start: LspPos { line: rg.start.line, character: rg.start.character },
                end: LspPos { line: rg.end.line, character: rg.end.character },
            }),
            None => None,
        }
    }

    /// Decide, against the stored text itself, whether a span may be
    /// handed to the translation: each endpoint's line is past the text,
    /// or its column sits on a character boundary of that line.  This is
    /// the executable form of [`span_ok`]; a cached span from an older
    /// revision that fails it is the designated drop case.
    pub fn span_in_bounds(&self, span: &Span) -> (r: bool)
        ensures
            r == span_ok(self.text(), *span),
    {
        let lines = split_into_lines(&self.text_rep);
        let s = pos_in_lines(&lines, &span.start);
        let e = pos_in_lines(&lines, &span.end);
        s && e
    }
}

/// The views of a split text's lines.
pub open spec fn lines_view(s: Seq<Vec<char>>) -> Seq<Seq<char>> {
    s.map_values(|l: Vec<char>| l@)
}

/// The UTF-8 encoded width of one character, computed.
fn utf8_len_x(c: char) -> (r: u32)
    ensures
        r == utf8_len(c),
{
    let u = c as u32;
    if u < 0x80 {
        1
    } else if u < 0x800 {
        2
    } else if u < 0x10000 {
        3
    } else {
        4
    }
}

proof fn lemma_byte_len_push(s: Seq<char>, c: char)
    ensures
        byte_len(s.push(c)) == byte_len(s) + utf8_len(c),
    decreases s.len(),
{
    if s.len() == 0 {
        assert(s.push(c).first() == c);
        assert(s.push(c).drop_first() =~= Seq::<char>::empty());
        assert(byte_len(Seq::<char>::empty()) == 0);
    } else {
        assert(s.push(c).first() == s.first());
        assert(s.push(c).drop_first() =~= s.drop_first().push(c));
        lemma_byte_len_push(s.drop_first(), c);
    }
}

proof fn lemma_byte_len_take_step(s: Seq<char>, a: int)
    requires
        0 <= a < s.len(),
    ensures
        byte_len(s.take(a + 1)) == byte_len(s.take(a)) + utf8_len(s[a]),
{
    assert(s.take(a + 1) =~= s.take(a).push(s[a]));
    lemma_byte_len_push(s.take(a), s[a]);
}

proof fn lemma_byte_len_mono(s: Seq<char>, a: int, b: int)
    requires
        0 <= a <= b <= s.len(),
    ensures
        byte_len(s.take(a)) <= byte_len(s.take(b)),
    decreases b - a,
{
    if a < b {
        lemma_byte_len_take_step(s, a);
        lemma_byte_len_mono(s, a + 1, b);
    }
}

/// Computes [`lines_of`] for a text held as its characters.
fn split_into_lines(text: &Vec<char>) -> (r: Vec<Vec<char>>)
    ensures
        lines_view(r@) == lines_of(text@),
{
    let mut lines: Vec<Vec<char>> = Vec::new();
    let mut cur: Vec<char> = Vec::new();
    let n = text.len();
    proof {
        assert(text@.skip(0) =~= text@);
        assert(lines_view(lines@) =~= Seq::<Seq<char>>::empty());
        assert(lines_view(lines@) + split_lines(text@, cur@) =~= split_lines(text@, cur@));
    }
    for i in 0..n
        invariant
            n == text@.len(),
            split_lines(text@, Seq::empty()) == lines_view(lines@) + split_lines(
                text@.skip(i as int),
                cur@,
            ),
    {
        let ghost s = text@.skip(i as int);
        proof {
            assert(s.first() == text@[i as int]);
            assert(s.drop_first() =~= text@.skip(i + 1));
            if i + 1 < n {
                assert(s[1] == text@[i + 1]);
            }
        }
        let c = text[i];
        let is_break = c == '\n' || (c == '\r' && (i + 1 == n || text[i + 1] != '\n'));
        let ghost cur0 = cur@;
        if is_break {
            cur.push(c);
            let ghost lines0 = lines@;
            lines.push(cur);
            cur = Vec::new();
            proof {
                assert(split_lines(s, cur0) == seq![cur0.push(c)] + split_lines(
                    text@.skip(i + 1),
                    Seq::empty(),
                ));
                assert(lines_view(lines@) =~= lines_view(lines0).push(cur0.push(c)));
                assert(lines_view(lines0) + (seq![cur0.push(c)] + split_lines(
                    text@.skip(i + 1),
                    Seq::empty(),
                )) =~= lines_view(lines@) + split_lines(text@.skip(i + 1), cur@));
            }
        } else {
            cur.push(c);
            proof {
                assert(split_lines(s, cur0) == split_lines(text@.skip(i + 1), cur0.push(c)));
            }
        }
    }
    proof {
        assert(text@.skip(n as int) =~= Seq::<char>::empty());
    }
    if cur.len() > 0 {
        let ghost lines0 = lines@;
        lines.push(cur);
        proof {
            assert(lines_view(lines@) =~= split_lines(text@, Seq::empty()));
        }
    } else {
        proof {
            assert(lines_view(lines@) + Seq::<Seq<char>>::empty() =~= lines_view(lines@));
        }
    }
    let ghost body = lines@;
    lines.push(Vec::new());
    proof {
        assert(lines_view(lines@) =~= lines_view(body).push(Seq::<char>::empty()));
        assert(lines_view(body).push(Seq::<char>::empty()) =~= lines_view(body) + seq![
            Seq::<char>::empty(),
        ]);
    }
    lines
}

/// Decides [`col_ok`]: whether `col` is the byte length of some prefix
/// of the line.
fn col_on_boundary(line: &Vec<char>, col: u32) -> (r: bool)
    ensures
        r == col_ok(line@, col as nat),
{
    let target: u64 = col as u64;
    let mut sum: u64 = 0;
    let mut k: usize = 0;
    let n = line.len();
    proof {
        assert(line@.take(0) =~= Seq::<char>::empty());
    }
    while k < n
        invariant
            k <= n,
            n == line@.len(),
            target == col as u64,
            sum == byte_len(line@.take(k as int)),
            forall|k2: int| 0 <= k2 < k ==> byte_len(line@.take(k2)) < col as nat,
        decreases n - k,
    {
        if sum == target {
            assert(col_ok(line@, col as nat));
            return true;
        }
        if sum > target {
            proof {
                if col_ok(line@, col as nat) {
                    let k0 = choose|k0: int|
                        0 <= k0 <= line@.len() && byte_len(line@.take(k0)) == col as nat;
                    if k0 >= k {
                        lemma_byte_len_mono(line@, k as int, k0);
                    }
                }
            }
            return false;
        }
        proof {
            lemma_byte_len_take_step(line@, k as int);
        }
        sum = sum + utf8_len_x(line[k]) as u64;
        k = k + 1;
    }
    if sum == target {
        proof {
            assert(line@.take(n as int) =~= line@);
        }
        assert(col_ok(line@, col as nat));
        true
    } else {
        proof {
            if col_ok(line@, col as nat) {
                let k0 = choose|k0: int|
                    0 <= k0 <= line@.len() && byte_len(line@.take(k0)) == col as nat;
                assert(line@.take(n as int) =~= line@);
            }
        }
        false
    }
}

/// Decides [`pos_ok`] against an already split text.
fn pos_in_lines(lines: &Vec<Vec<char>>, p: &Pos) -> (r: bool)
    ensures
        r == (p.line >= lines_view(lines@).len() || col_ok(
            lines_view(lines@)[p.line as int],
            p.col as nat,
        )),
{
    if (p.line as usize) >= lines.len() {
        true
    } else {
        proof {
            assert(lines_view(lines@)[p.line as int] == lines@[p.line as int]@);
        }
        col_on_boundary(&lines[p.line as usize], p.col)
    }
}

} // verus!
