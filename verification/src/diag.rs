//! The diagnostic taxonomy: the closed set of report kinds, their
//! mathematical views, message rendering, and structural equality.

use vstd::prelude::*;
use vstd::string::StringExecFns;
use crate::model::{Heading, HeadingV, NoteName, Span};

verus! {

/// One reportable problem, carrying exactly the evidence its message needs.
#[derive(Debug)]
pub enum Diag {
    DupTitle { title: Heading },
    DupHeading { heading: Heading },
    BrokenInternLinkToNote { linked_note: NoteName },
    BrokenInternLinkToHeading { linked_note: NoteName, heading: String },
}

/// The mathematical value of a [`Diag`].
#[verifier::ext_equal]
pub enum DiagV {
    DupTitle { title: HeadingV },
    DupHeading { heading: HeadingV },
    BrokenInternLinkToNote { linked_note: Seq<char> },
    BrokenInternLinkToHeading { linked_note: Seq<char>, heading: Seq<char> },
}

impl View for Diag {
    type V = DiagV;

    open spec fn view(&self) -> DiagV {
        match self {
            Diag::DupTitle { title } => DiagV::DupTitle { title: title@ },
            Diag::DupHeading { heading } => DiagV::DupHeading { heading: heading@ },
            Diag::BrokenInternLinkToNote { linked_note } => DiagV::BrokenInternLinkToNote {
                linked_note: linked_note@,
            },
            Diag::BrokenInternLinkToHeading { linked_note, heading } => {
                DiagV::BrokenInternLinkToHeading { linked_note: linked_note@, heading: heading@ }
            },
        }
    }
}

impl Clone for Diag {
    fn clone(&self) -> (r: Self)
        ensures
            r == *self,
    {
        match self {
            Diag::DupTitle { title } => Diag::DupTitle { title: title.clone() },
            Diag::DupHeading { heading } => Diag::DupHeading { heading: heading.clone() },
            Diag::BrokenInternLinkToNote { linked_note } => Diag::BrokenInternLinkToNote {
                linked_note: linked_note.clone(),
            },
            Diag::BrokenInternLinkToHeading { linked_note, heading } => {
                Diag::BrokenInternLinkToHeading {
                    linked_note: linked_note.clone(),
                    heading: heading.clone(),
                }
            },
        }
    }
}

/// A diagnostic together with the span of the source text it points at.
pub type DiagWithLoc = (Diag, Span);

/// The mathematical value of a [`DiagWithLoc`].
pub open spec fn diag_loc_view(d: DiagWithLoc) -> (DiagV, Span) {
    (d.0@, d.1)
}

/// The views of a sequence of located diagnostics.
pub open spec fn diags_view(ds: Seq<DiagWithLoc>) -> Seq<(DiagV, Span)> {
    ds.map_values(|d: DiagWithLoc| diag_loc_view(d))
}

/// The exact message text of a diagnostic.
pub open spec fn message_of(d: DiagV) -> Seq<char> {
    match d {
        DiagV::DupTitle { title } => "Duplicate title `"@ + title.text
            + "`. Each note should have at most one title"@,
        DiagV::DupHeading { heading } => "Duplicate heading `"@ + heading.text + "`"@,
        DiagV::BrokenInternLinkToNote { linked_note } => "Reference to non-existent note `"@
            + linked_note + "`"@,
        DiagV::BrokenInternLinkToHeading { linked_note, heading } => {
            "Reference to non-existent heading `"@ + linked_note + "`"@ + heading
        },
    }
}

impl Diag {
    /// Render this diagnostic as its human-readable message.  Rendering is
    /// total: every field a message needs is present by construction.
    pub fn to_message(&self) -> (r: String)
        ensures
            r@ == message_of(self@),
    {
        match self {
            Diag::DupTitle { title } => {
                let mut s = String::from_str("Duplicate title `");
                s.append(title.text.as_str());
                s.append("`. Each note should have at most one title");
                s
            },
            Diag::DupHeading { heading } => {
                let mut s = String::from_str("Duplicate heading `");
                s.append(heading.text.as_str());
                s.append("`");
                s
            },
            Diag::BrokenInternLinkToNote { linked_note } => {
                let mut s = String::from_str("Reference to non-existent note `");
                s.append(linked_note.name.as_str());
                s.append("`");
                s
            },
            Diag::BrokenInternLinkToHeading { linked_note, heading } => {
                let mut s = String::from_str("Reference to non-existent heading `");
                s.append(linked_note.name.as_str());
                s.append("`");
                s.append(heading.as_str());
                s
            },
        }
    }
}

/// Structural equality of two headings.
pub fn heading_eq(a: &Heading, b: &Heading) -> (r: bool)
    ensures
        r == (a@ == b@),
{
    let r = a.id == b.id && a.level == b.level && a.text == b.text && a.span == b.span;
    proof {
        if r {
            assert(a@ =~= b@);
        }
    }
    r
}

/// Structural equality of two located diagnostics: true exactly when both
/// the diagnostic content and the span agree.
pub fn diag_loc_eq(a: &DiagWithLoc, b: &DiagWithLoc) -> (r: bool)
    ensures
        r == (diag_loc_view(*a) == diag_loc_view(*b)),
{
    if !(a.1 == b.1) {
        return false;
    }
    match &a.0 {
        Diag::DupTitle { title: ta } => match &b.0 {
            Diag::DupTitle { title: tb } => {
                let e = heading_eq(ta, tb);
                proof {
                    if e {
                        assert(a.0@ =~= b.0@);
                    }
                }
                e
            },
            _ => false,
        },
        Diag::DupHeading { heading: ha } => match &b.0 {
            Diag::DupHeading { heading: hb } => {
                let e = heading_eq(ha, hb);
                proof {
                    if e {
                        assert(a.0@ =~= b.0@);
                    }
                }
                e
            },
            _ => false,
        },
        Diag::BrokenInternLinkToNote { linked_note: na } => match &b.0 {
            Diag::BrokenInternLinkToNote { linked_note: nb } => {
                let e = na.name == nb.name;
                proof {
                    if e {
                        assert(a.0@ =~= b.0@);
                    }
                }
                e
            },
            _ => false,
        },
        Diag::BrokenInternLinkToHeading { linked_note: na, heading: ha } => match &b.0 {
            Diag::BrokenInternLinkToHeading { linked_note: nb, heading: hb } => {
                let e = na.name == nb.name && *ha == *hb;
                proof {
                    if e {
                        assert(a.0@ =~= b.0@);
                    }
                }
                e
            },
            _ => false,
        },
    }
}

} // verus!
