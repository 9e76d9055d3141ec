//! Laws of the rule set and the publish adapter, proved once and for
//! all: report counts per rule, single-report-per-heading, what a broken
//! link yields, and what a report keeps of a cached set.

use vstd::prelude::*;
use crate::diag::DiagV;
use crate::facts::{NoteV, find_by_name_spec, has_heading_text};
use crate::model::{HeadingV, InternLinkV, Span};
use crate::publish::report_entries;
use crate::rules::{
    heading_diags, heading_dups, link_diag, link_diags, sans_text, title_diags, title_diags_from,
    with_text,
};
use crate::text::{lsp_range_of, span_ok};

verus! {

/// The number of titles (level-1 headings) among `hs`.
pub open spec fn title_count(hs: Seq<HeadingV>) -> nat
    decreases hs.len(),
{
    if hs.len() == 0 {
        0
    } else {
        (if hs.first().level == 1 {
            1nat
        } else {
            0nat
        }) + title_count(hs.drop_first())
    }
}

proof fn lemma_title_diags_from_len(hs: Seq<HeadingV>, seen: bool)
    ensures
        seen ==> title_diags_from(hs, true).len() == title_count(hs),
        !seen ==> title_diags_from(hs, false).len() == if title_count(hs) == 0 {
            0int
        } else {
            title_count(hs) - 1
        },
    decreases hs.len(),
{
    if hs.len() != 0 {
        lemma_title_diags_from_len(hs.drop_first(), true);
        lemma_title_diags_from_len(hs.drop_first(), seen && hs.first().level != 1);
        lemma_title_diags_from_len(hs.drop_first(), false);
    }
}

/// For a note with `n` titles the title rule reports exactly
/// `max(n - 1, 0)` diagnostics: every title after the first.
pub proof fn lemma_title_rule_count(hs: Seq<HeadingV>)
    ensures
        title_diags(hs).len() == if title_count(hs) == 0 {
            0int
        } else {
            title_count(hs) - 1
        },
{
    lemma_title_diags_from_len(hs, false);
}

proof fn lemma_with_text_concat(a: Seq<HeadingV>, b: Seq<HeadingV>, t: Seq<char>)
    ensures
        with_text(a + b, t) == with_text(a, t) + with_text(b, t),
    decreases a.len(),
{
    if a.len() == 0 {
        assert(a + b =~= b);
        assert(with_text(a, t) + with_text(b, t) =~= with_text(b, t));
    } else {
        assert((a + b).first() == a.first());
        assert((a + b).drop_first() =~= a.drop_first() + b);
        lemma_with_text_concat(a.drop_first(), b, t);
        if a.first().text == t {
            assert(seq![a.first()] + (with_text(a.drop_first(), t) + with_text(b, t))
                =~= (seq![a.first()] + with_text(a.drop_first(), t)) + with_text(b, t));
        }
    }
}

proof fn lemma_with_text_of_sans(s: Seq<HeadingV>, t: Seq<char>, u: Seq<char>)
    ensures
        t == u ==> with_text(sans_text(s, t), u) == Seq::<HeadingV>::empty(),
        t != u ==> with_text(sans_text(s, t), u) == with_text(s, u),
    decreases s.len(),
{
    if s.len() != 0 {
        lemma_with_text_of_sans(s.drop_first(), t, u);
        if s.first().text != t {
            assert((seq![s.first()] + sans_text(s.drop_first(), t)).first() == s.first());
            assert((seq![s.first()] + sans_text(s.drop_first(), t)).drop_first() =~= sans_text(
                s.drop_first(),
                t,
            ));
        }
    }
}

proof fn lemma_with_text_of_with(s: Seq<HeadingV>, t: Seq<char>, u: Seq<char>)
    ensures
        t == u ==> with_text(with_text(s, t), u) == with_text(s, u),
        t != u ==> with_text(with_text(s, t), u) == Seq::<HeadingV>::empty(),
    decreases s.len(),
{
    if s.len() != 0 {
        lemma_with_text_of_with(s.drop_first(), t, u);
        if s.first().text == t {
            assert((seq![s.first()] + with_text(s.drop_first(), t)).first() == s.first());
            assert((seq![s.first()] + with_text(s.drop_first(), t)).drop_first() =~= with_text(
                s.drop_first(),
                t,
            ));
        }
    }
}

/// For each group of equal-text sub-headings the heading rule reports
/// exactly `groupSize - 1` members, and none for a singleton or absent
/// group: of the headings whose text is `t`, all but one are reported.
pub proof fn lemma_heading_group_count(hs: Seq<HeadingV>, t: Seq<char>)
    ensures
        with_text(heading_dups(hs), t).len() == if with_text(hs, t).len() == 0 {
            0int
        } else {
            with_text(hs, t).len() - 1
        },
    decreases hs.len(),
{
    if hs.len() == 0 {
    } else {
        let t0 = hs.first().text;
        let d1 = hs.drop_first();
        crate::rules::lemma_sans_text_len(d1, t0);
        lemma_heading_group_count(sans_text(d1, t0), t);
        lemma_with_text_concat(with_text(d1, t0), heading_dups(sans_text(d1, t0)), t);
        lemma_with_text_of_with(d1, t0, t);
        lemma_with_text_of_sans(d1, t0, t);
        if t == t0 {
            assert(with_text(hs, t) == seq![hs.first()] + with_text(d1, t));
            assert((seq![hs.first()] + with_text(d1, t)).len() == 1 + with_text(d1, t).len());
        }
    }
}

/// The number of headings among `hs` that carry the identifier `id`.
pub open spec fn id_count(hs: Seq<HeadingV>, id: u32) -> nat
    decreases hs.len(),
{
    if hs.len() == 0 {
        0
    } else {
        (if hs.first().id == id {
            1nat
        } else {
            0nat
        }) + id_count(hs.drop_first(), id)
    }
}

proof fn lemma_id_count_concat(a: Seq<HeadingV>, b: Seq<HeadingV>, id: u32)
    ensures
        id_count(a + b, id) == id_count(a, id) + id_count(b, id),
    decreases a.len(),
{
    if a.len() == 0 {
        assert(a + b =~= b);
    } else {
        assert((a + b).first() == a.first());
        assert((a + b).drop_first() =~= a.drop_first() + b);
        lemma_id_count_concat(a.drop_first(), b, id);
    }
}

proof fn lemma_id_count_partition(s: Seq<HeadingV>, t: Seq<char>, id: u32)
    ensures
        id_count(with_text(s, t), id) + id_count(sans_text(s, t), id) == id_count(s, id),
    decreases s.len(),
{
    if s.len() != 0 {
        lemma_id_count_partition(s.drop_first(), t, id);
        if s.first().text == t {
            assert((seq![s.first()] + with_text(s.drop_first(), t)).first() == s.first());
            assert((seq![s.first()] + with_text(s.drop_first(), t)).drop_first() =~= with_text(
                s.drop_first(),
                t,
            ));
        } else {
            assert((seq![s.first()] + sans_text(s.drop_first(), t)).first() == s.first());
            assert((seq![s.first()] + sans_text(s.drop_first(), t)).drop_first() =~= sans_text(
                s.drop_first(),
                t,
            ));
        }
    }
}

/// No heading is reported more often than it occurs: a worklist whose
/// headings carry pairwise distinct identifiers yields at most one
/// report per identifier.
pub proof fn lemma_heading_dups_id_count(hs: Seq<HeadingV>, id: u32)
    ensures
        id_count(heading_dups(hs), id) <= id_count(hs, id),
    decreases hs.len(),
{
    if hs.len() != 0 {
        let t0 = hs.first().text;
        let d1 = hs.drop_first();
        crate::rules::lemma_sans_text_len(d1, t0);
        lemma_heading_dups_id_count(sans_text(d1, t0), id);
        lemma_id_count_concat(with_text(d1, t0), heading_dups(sans_text(d1, t0)), id);
        lemma_id_count_partition(d1, t0, id);
    }
}

proof fn lemma_with_text_mem(s: Seq<HeadingV>, t: Seq<char>, x: HeadingV)
    requires
        with_text(s, t).contains(x),
    ensures
        s.contains(x),
        x.text == t,
    decreases s.len(),
{
    if s.len() == 0 {
        let i = choose|i: int| 0 <= i < with_text(s, t).len() && with_text(s, t)[i] == x;
        assert(false);
    } else {
        let d1 = s.drop_first();
        if s.first().text == t {
            let w = with_text(s, t);
            let i = choose|i: int| 0 <= i < w.len() && w[i] == x;
            if i == 0 {
                assert(x == s.first());
                assert(s[0] == s.first());
            } else {
                assert(with_text(d1, t)[i - 1] == x);
                assert(with_text(d1, t).contains(x));
                lemma_with_text_mem(d1, t, x);
                let j = choose|j: int| 0 <= j < d1.len() && d1[j] == x;
                assert(s[j + 1] == x);
            }
        } else {
            lemma_with_text_mem(d1, t, x);
            let j = choose|j: int| 0 <= j < d1.len() && d1[j] == x;
            assert(s[j + 1] == x);
        }
    }
}

proof fn lemma_sans_text_mem(s: Seq<HeadingV>, t: Seq<char>, x: HeadingV)
    requires
        sans_text(s, t).contains(x),
    ensures
        s.contains(x),
        x.text != t,
    decreases s.len(),
{
    if s.len() == 0 {
        let i = choose|i: int| 0 <= i < sans_text(s, t).len() && sans_text(s, t)[i] == x;
        assert(false);
    } else {
        let d1 = s.drop_first();
        if s.first().text == t {
            lemma_sans_text_mem(d1, t, x);
            let j = choose|j: int| 0 <= j < d1.len() && d1[j] == x;
            assert(s[j + 1] == x);
        } else {
            let w = sans_text(s, t);
            let i = choose|i: int| 0 <= i < w.len() && w[i] == x;
            if i == 0 {
                assert(x == s.first());
                assert(s[0] == s.first());
            } else {
                assert(sans_text(d1, t)[i - 1] == x);
                assert(sans_text(d1, t).contains(x));
                lemma_sans_text_mem(d1, t, x);
                let j = choose|j: int| 0 <= j < d1.len() && d1[j] == x;
                assert(s[j + 1] == x);
            }
        }
    }
}

proof fn lemma_heading_dups_mem(s: Seq<HeadingV>, x: HeadingV)
    requires
        heading_dups(s).contains(x),
    ensures
        s.contains(x),
    decreases s.len(),
{
    if s.len() == 0 {
        let i = choose|i: int| 0 <= i < heading_dups(s).len() && heading_dups(s)[i] == x;
        assert(false);
    } else {
        let t0 = s.first().text;
        let d1 = s.drop_first();
        crate::rules::lemma_sans_text_len(d1, t0);
        let a = with_text(d1, t0);
        let b = heading_dups(sans_text(d1, t0));
        let i = choose|i: int| 0 <= i < (a + b).len() && (a + b)[i] == x;
        if i < a.len() {
            assert(a[i] == x);
            assert(a.contains(x));
            lemma_with_text_mem(d1, t0, x);
        } else {
            assert(b[i - a.len()] == x);
            assert(b.contains(x));
            lemma_heading_dups_mem(sans_text(d1, t0), x);
            lemma_sans_text_mem(d1, t0, x);
        }
        let j = choose|j: int| 0 <= j < d1.len() && d1[j] == x;
        assert(s[j + 1] == x);
    }
}

proof fn lemma_mem_id_count(s: Seq<HeadingV>, x: HeadingV)
    requires
        s.contains(x),
    ensures
        id_count(s, x.id) >= 1,
    decreases s.len(),
{
    let i = choose|i: int| 0 <= i < s.len() && s[i] == x;
    if i > 0 {
        let d1 = s.drop_first();
        assert(d1[i - 1] == x);
        assert(d1.contains(x));
        lemma_mem_id_count(d1, x);
    }
}

/// The canonical member of each group — the first heading of its text
/// in document order — is never reported, as long as the headings carry
/// pairwise distinct identifiers (its own identifier occurs once).
pub proof fn lemma_first_occurrence_unreported(hs: Seq<HeadingV>, t: Seq<char>)
    requires
        with_text(hs, t).len() > 0,
        id_count(hs, with_text(hs, t).first().id) <= 1,
    ensures
        !heading_dups(hs).contains(with_text(hs, t).first()),
    decreases hs.len(),
{
    let f = with_text(hs, t).first();
    let t0 = hs.first().text;
    let d1 = hs.drop_first();
    crate::rules::lemma_sans_text_len(d1, t0);
    let a = with_text(d1, t0);
    let b = heading_dups(sans_text(d1, t0));
    if t == t0 {
        assert(f == hs.first());
        if heading_dups(hs).contains(f) {
            let i = choose|i: int| 0 <= i < (a + b).len() && (a + b)[i] == f;
            if i < a.len() {
                assert(a[i] == f);
                assert(a.contains(f));
                lemma_with_text_mem(d1, t0, f);
                lemma_mem_id_count(d1, f);
                assert(id_count(hs, f.id) == 1 + id_count(d1, f.id));
                assert(false);
            } else {
                assert(b[i - a.len()] == f);
                assert(b.contains(f));
                lemma_heading_dups_mem(sans_text(d1, t0), f);
                lemma_sans_text_mem(d1, t0, f);
                assert(false);
            }
        }
    } else {
        assert(with_text(hs, t) == with_text(d1, t));
        assert(with_text(d1, t)[0] == f);
        assert(with_text(d1, t).contains(f));
        lemma_with_text_mem(d1, t, f);
        assert(f.text == t);
        lemma_with_text_of_sans(d1, t0, t);
        lemma_id_count_partition(d1, t0, f.id);
        assert(id_count(hs, f.id) == (if hs.first().id == f.id {
            1nat
        } else {
            0nat
        }) + id_count(d1, f.id));
        lemma_first_occurrence_unreported(sans_text(d1, t0), t);
        if heading_dups(hs).contains(f) {
            let i = choose|i: int| 0 <= i < (a + b).len() && (a + b)[i] == f;
            if i < a.len() {
                assert(a[i] == f);
                assert(a.contains(f));
                lemma_with_text_mem(d1, t0, f);
                assert(false);
            } else {
                assert(b[i - a.len()] == f);
                assert(b.contains(f));
                assert(false);
            }
        }
    }
}

/// A link whose target name is absent from the index yields exactly one
/// broken-link-to-note diagnostic at the link's span, and never a
/// heading diagnostic for that same link.
pub proof fn lemma_link_to_missing_note(l: InternLinkV, self_name: Seq<char>, db: Seq<NoteV>)
    requires
        find_by_name_spec(
            db,
            match l.note_name {
                Some(n) => n,
                None => self_name,
            },
        ) is None,
    ensures
        link_diag(l, self_name, db) == seq![
            (
                DiagV::BrokenInternLinkToNote {
                    linked_note: match l.note_name {
                        Some(n) => n,
                        None => self_name,
                    },
                },
                l.span,
            ),
        ],
        forall|k: int|
            0 <= k < link_diag(l, self_name, db).len() ==> !(#[trigger] link_diag(
                l,
                self_name,
                db,
            )[k].0 is BrokenInternLinkToHeading),
{
}

/// A link that resolves to an existing note but names a heading that
/// note lacks yields exactly one broken-link-to-heading diagnostic, at
/// the link's span, carrying the resolved note name and the requested
/// heading text.
pub proof fn lemma_link_to_missing_heading(
    l: InternLinkV,
    self_name: Seq<char>,
    db: Seq<NoteV>,
    i: int,
    h: Seq<char>,
)
    requires
        l.heading == Some(h),
        find_by_name_spec(
            db,
            match l.note_name {
                Some(n) => n,
                None => self_name,
            },
        ) == Some(i),
        !has_heading_text(db[i].headings, h),
    ensures
        link_diag(l, self_name, db) == seq![
            (
                DiagV::BrokenInternLinkToHeading {
                    linked_note: match l.note_name {
                        Some(n) => n,
                        None => self_name,
                    },
                    heading: h,
                },
                l.span,
            ),
        ],
{
}

/// A self-link (no explicit target name) to a heading that the current
/// note has yields no diagnostic, provided the note's own name resolves
/// to a note carrying those headings.
pub proof fn lemma_self_link_ok(l: InternLinkV, self_name: Seq<char>, db: Seq<NoteV>, i: int)
    requires
        l.note_name is None,
        find_by_name_spec(db, self_name) == Some(i),
        match l.heading {
            Some(h) => has_heading_text(db[i].headings, h),
            None => true,
        },
    ensures
        link_diag(l, self_name, db) == Seq::<(DiagV, Span)>::empty(),
{
}

proof fn lemma_with_text_complete(s: Seq<HeadingV>, t: Seq<char>, x: HeadingV)
    requires
        s.contains(x),
        x.text == t,
    ensures
        with_text(s, t).contains(x),
    decreases s.len(),
{
    let i = choose|i: int| 0 <= i < s.len() && s[i] == x;
    if i == 0 {
        assert(with_text(s, t)[0] == x);
    } else {
        let d1 = s.drop_first();
        assert(d1[i - 1] == x);
        assert(d1.contains(x));
        lemma_with_text_complete(d1, t, x);
        let j = choose|j: int| 0 <= j < with_text(d1, t).len() && with_text(d1, t)[j] == x;
        if s.first().text == t {
            assert(with_text(s, t)[j + 1] == x);
        }
    }
}

proof fn lemma_sans_text_complete(s: Seq<HeadingV>, t: Seq<char>, x: HeadingV)
    requires
        s.contains(x),
        x.text != t,
    ensures
        sans_text(s, t).contains(x),
    decreases s.len(),
{
    let i = choose|i: int| 0 <= i < s.len() && s[i] == x;
    if i == 0 {
        assert(sans_text(s, t)[0] == x);
    } else {
        let d1 = s.drop_first();
        assert(d1[i - 1] == x);
        assert(d1.contains(x));
        lemma_sans_text_complete(d1, t, x);
        let j = choose|j: int| 0 <= j < sans_text(d1, t).len() && sans_text(d1, t)[j] == x;
        if s.first().text != t {
            assert(sans_text(s, t)[j + 1] == x);
        }
    }
}

/// Every member of a group except its canonical first occurrence is
/// reported: a heading of the worklist that is not the first of its
/// text is among the duplicates.
pub proof fn lemma_non_first_occurrence_reported(hs: Seq<HeadingV>, x: HeadingV)
    requires
        hs.contains(x),
        x != with_text(hs, x.text).first(),
    ensures
        heading_dups(hs).contains(x),
    decreases hs.len(),
{
    let t0 = hs.first().text;
    let d1 = hs.drop_first();
    crate::rules::lemma_sans_text_len(d1, t0);
    let a = with_text(d1, t0);
    let b = heading_dups(sans_text(d1, t0));
    lemma_with_text_complete(hs, x.text, x);
    if x.text == t0 {
        assert(with_text(hs, t0).first() == hs.first());
        let i = choose|i: int| 0 <= i < hs.len() && hs[i] == x;
        assert(i != 0);
        assert(d1[i - 1] == x);
        assert(d1.contains(x));
        lemma_with_text_complete(d1, t0, x);
        let j = choose|j: int| 0 <= j < a.len() && a[j] == x;
        assert((a + b)[j] == x);
        assert(heading_dups(hs).contains(x));
    } else {
        let i = choose|i: int| 0 <= i < hs.len() && hs[i] == x;
        assert(i != 0);
        assert(d1[i - 1] == x);
        assert(d1.contains(x));
        lemma_sans_text_complete(d1, t0, x);
        lemma_with_text_of_sans(d1, t0, x.text);
        assert(with_text(hs, x.text) == with_text(d1, x.text));
        lemma_non_first_occurrence_reported(sans_text(d1, t0), x);
        let j = choose|j: int| 0 <= j < b.len() && b[j] == x;
        assert((a + b)[a.len() + j] == x);
        assert(heading_dups(hs).contains(x));
    }
}

/// With pairwise distinct note names — the assumption the vault index
/// works under — a note's own name resolves to that very note.
pub proof fn lemma_find_by_name_unique(db: Seq<NoteV>, i: int)
    requires
        0 <= i < db.len(),
        forall|j: int, k: int| 0 <= j < k < db.len() ==> db[j].name != db[k].name,
    ensures
        find_by_name_spec(db, db[i].name) == Some(i),
    decreases db.len(),
{
    if i == 0 {
    } else {
        let d1 = db.drop_first();
        assert(forall|j: int| 0 <= j < d1.len() ==> d1[j] == db[j + 1]);
        lemma_find_by_name_unique(d1, i - 1);
        assert(db.first() == db[0]);
    }
}

/// A self-link (no explicit target name) to a heading the current note
/// has yields no diagnostic, whenever the vault's note names are
/// pairwise distinct.
pub proof fn lemma_self_link_ok_unique_names(l: InternLinkV, db: Seq<NoteV>, i: int)
    requires
        0 <= i < db.len(),
        forall|j: int, k: int| 0 <= j < k < db.len() ==> db[j].name != db[k].name,
        l.note_name is None,
        match l.heading {
            Some(h) => has_heading_text(db[i].headings, h),
            None => true,
        },
    ensures
        link_diag(l, db[i].name, db) == Seq::<(DiagV, Span)>::empty(),
{
    lemma_find_by_name_unique(db, i);
    lemma_self_link_ok(l, db[i].name, db, i);
}

/// Re-running all three rules on an unchanged snapshot yields the very
/// same diagnostic sequences — and so equal sets: each rule is a pure
/// function of the snapshot alone, as the checkers' contracts pin their
/// results to these functions.  Together with `DiagCollection::replace`,
/// which reports no change for an equal stored set, a caller can detect
/// a recomputation that changed nothing.
pub proof fn lemma_rules_idempotent(n1: NoteV, n2: NoteV, db1: Seq<NoteV>, db2: Seq<NoteV>)
    requires
        n1 == n2,
        db1 == db2,
    ensures
        title_diags(n1.headings) == title_diags(n2.headings),
        heading_diags(n1.headings) == heading_diags(n2.headings),
        link_diags(n1.links, n1.name, db1) == link_diags(n2.links, n2.name, db2),
{
}

/// The number of diagnostics whose spans the index translates: the span
/// sits on character boundaries of the text and the translation answers.
pub open spec fn translated_count(ds: Seq<(DiagV, Span)>, text: Seq<char>) -> nat
    decreases ds.len(),
{
    if ds.len() == 0 {
        0
    } else {
        (if span_ok(text, ds.first().1) && lsp_range_of(text, ds.first().1) is Some {
            1nat
        } else {
            0nat
        }) + translated_count(ds.drop_first(), text)
    }
}

/// A report holds exactly one entry for each diagnostic whose span
/// translates against the current position index, and none for the rest.
pub proof fn lemma_report_count(ds: Seq<(DiagV, Span)>, text: Seq<char>)
    ensures
        report_entries(ds, text).len() == translated_count(ds, text),
    decreases ds.len(),
{
    if ds.len() != 0 {
        lemma_report_count(ds.drop_first(), text);
    }
}

} // verus!
