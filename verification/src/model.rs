//! The data model of one note's parsed structure: positions, spans,
//! note names, headings and internal links, each with a mathematical view.

use vstd::prelude::*;

verus! {

/// A position inside one revision of a note's text: 0-indexed line and
/// 0-indexed byte offset from the beginning of that line.
#[derive(Clone, Copy, Debug, PartialEq, Eq, Structural)]
pub struct Pos {
    pub line: u32,
    pub col: u32,
}

/// A half-open range over text positions within one revision of a note.
#[derive(Clone, Copy, Debug, PartialEq, Eq, Structural)]
pub struct Span {
    pub start: Pos,
    pub end: Pos,
}

/// Canonical note identifier; equality is exact, case-sensitive comparison.
#[derive(Debug)]
pub struct NoteName {
    pub name: String,
}

impl View for NoteName {
    type V = Seq<char>;

    open spec fn view(&self) -> Seq<char> {
        self.name@
    }
}

impl Clone for NoteName {
    fn clone(&self) -> (r: Self)
        ensures
            r == *self,
    {
        NoteName { name: self.name.clone() }
    }
}

/// One heading of a note: its nesting level (1 is a title), its text, a
/// stable within-note identifier, and the span of its source text.
#[derive(Debug)]
pub struct Heading {
    pub id: u32,
    pub level: u32,
    pub text: String,
    pub span: Span,
}

/// The mathematical value of a [`Heading`].
#[verifier::ext_equal]
pub struct HeadingV {
    pub id: u32,
    pub level: u32,
    pub text: Seq<char>,
    pub span: Span,
}

impl View for Heading {
    type V = HeadingV;

    open spec fn view(&self) -> HeadingV {
        HeadingV { id: self.id, level: self.level, text: self.text@, span: self.span }
    }
}

impl Clone for Heading {
    fn clone(&self) -> (r: Self)
        ensures
            r == *self,
    {
        Heading { id: self.id, level: self.level, text: self.text.clone(), span: self.span }
    }
}

/// An inline reference to another note and/or a heading within a note.
/// An absent note name means the link points into the current note.
#[derive(Debug)]
pub struct InternLink {
    pub note_name: Option<NoteName>,
    pub heading: Option<String>,
    pub span: Span,
}

/// The mathematical value of an [`InternLink`].
#[verifier::ext_equal]
pub struct InternLinkV {
    pub note_name: Option<Seq<char>>,
    pub heading: Option<Seq<char>>,
    pub span: Span,
}

impl View for InternLink {
    type V = InternLinkV;

    open spec fn view(&self) -> InternLinkV {
        InternLinkV {
            note_name: match self.note_name {
                Some(ref n) => Some(n@),
                None => None,
            },
            heading: match self.heading {
                Some(ref h) => Some(h@),
                None => None,
            },
            span: self.span,
        }
    }
}

/// One note revision's parsed structure: its headings in document order
/// and its internal links in document order.
#[derive(Debug)]
pub struct NoteStructure {
    pub headings: Vec<Heading>,
    pub links: Vec<InternLink>,
}

/// An opaque handle identifying one note by its storage location; it keys
/// the diagnostic collection.
#[derive(Debug)]
pub struct NoteFile {
    pub path: String,
}

impl View for NoteFile {
    type V = Seq<char>;

    open spec fn view(&self) -> Seq<char> {
        self.path@
    }
}

impl Clone for NoteFile {
    fn clone(&self) -> (r: Self)
        ensures
            r == *self,
    {
        NoteFile { path: self.path.clone() }
    }
}

/// The views of a sequence of headings.
pub open spec fn headings_view(hs: Seq<Heading>) -> Seq<HeadingV> {
    hs.map_values(|h: Heading| h@)
}

/// The views of a sequence of links.
pub open spec fn links_view(ls: Seq<InternLink>) -> Seq<InternLinkV> {
    ls.map_values(|l: InternLink| l@)
}

} // verus!
