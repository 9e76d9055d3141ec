//! The rule set: three pure analyses of one note's fact view.  Each rule
//! is specified by a recursive function over the note's mathematical
//! value, and each checker is proved to return exactly that value.

use vstd::prelude::*;
use crate::diag::{Diag, DiagV, DiagWithLoc, diags_view};
use crate::facts::{FactsDB, Note, NoteV, find_by_name_spec, has_heading_text};
use crate::model::{Heading, HeadingV, InternLinkV, NoteName, Span, headings_view};

verus! {

/// The duplicate-title reports of `hs`, in document order.  `seen` says
/// whether a title (level-1 heading) was already passed: the first title
/// is canonical and never reported, every later one is reported at its
/// own span.
pub open spec fn title_diags_from(hs: Seq<HeadingV>, seen: bool) -> Seq<(DiagV, Span)>
    decreases hs.len(),
{
    if hs.len() == 0 {
        Seq::empty()
    } else {
        let h = hs.first();
        let rest = hs.drop_first();
        if h.level == 1 {
            if seen {
                seq![(DiagV::DupTitle { title: h }, h.span)] + title_diags_from(rest, true)
            } else {
                title_diags_from(rest, true)
            }
        } else {
            title_diags_from(rest, seen)
        }
    }
}

/// What the title rule reports for a note with headings `hs`.
pub open spec fn title_diags(hs: Seq<HeadingV>) -> Seq<(DiagV, Span)> {
    title_diags_from(hs, false)
}

/// The sub-headings of a note: every heading of level greater than 1,
/// in document order.
pub open spec fn subs_of(hs: Seq<HeadingV>) -> Seq<HeadingV>
    decreases hs.len(),
{
    if hs.len() == 0 {
        Seq::empty()
    } else if hs.first().level > 1 {
        seq![hs.first()] + subs_of(hs.drop_first())
    } else {
        subs_of(hs.drop_first())
    }
}

/// The headings of `hs` whose text is exactly `t`, in order.
pub open spec fn with_text(hs: Seq<HeadingV>, t: Seq<char>) -> Seq<HeadingV>
    decreases hs.len(),
{
    if hs.len() == 0 {
        Seq::empty()
    } else if hs.first().text == t {
        seq![hs.first()] + with_text(hs.drop_first(), t)
    } else {
        with_text(hs.drop_first(), t)
    }
}

/// The headings of `hs` whose text is not `t`, in order.
pub open spec fn sans_text(hs: Seq<HeadingV>, t: Seq<char>) -> Seq<HeadingV>
    decreases hs.len(),
{
    if hs.len() == 0 {
        Seq::empty()
    } else if hs.first().text == t {
        sans_text(hs.drop_first(), t)
    } else {
        seq![hs.first()] + sans_text(hs.drop_first(), t)
    }
}

/// Removing headings never lengthens the sequence.
pub proof fn lemma_sans_text_len(hs: Seq<HeadingV>, t: Seq<char>)
    ensures
        sans_text(hs, t).len() <= hs.len(),
    decreases hs.len(),
{
    if hs.len() != 0 {
        lemma_sans_text_len(hs.drop_first(), t);
    }
}

/// The duplicate headings of a worklist, processed in document order:
/// the first unresolved heading is canonical for its text group, every
/// other member of the group is reported, and the whole group leaves the
/// worklist before the next group is considered.
pub open spec fn heading_dups(hs: Seq<HeadingV>) -> Seq<HeadingV>
    decreases hs.len(),
    via heading_dups_dec
{
    if hs.len() == 0 {
        Seq::empty()
    } else {
        with_text(hs.drop_first(), hs.first().text) + heading_dups(
            sans_text(hs.drop_first(), hs.first().text),
        )
    }
}

#[via_fn]
proof fn heading_dups_dec(hs: Seq<HeadingV>) {
    if hs.len() != 0 {
        lemma_sans_text_len(hs.drop_first(), hs.first().text);
    }
}

/// Each duplicate heading, reported at its own span.
pub open spec fn dup_diags(hs: Seq<HeadingV>) -> Seq<(DiagV, Span)> {
    hs.map_values(|h: HeadingV| (DiagV::DupHeading { heading: h }, h.span))
}

/// What the heading rule reports for a note with headings `hs`.
pub open spec fn heading_diags(hs: Seq<HeadingV>) -> Seq<(DiagV, Span)> {
    dup_diags(heading_dups(subs_of(hs)))
}

/// Collects all level-1 headings in document order; every one after the
/// first is reported as a duplicate title at its own span.  Zero or one
/// title yields no report.
pub fn check_title(note: &Note) -> (r: Vec<DiagWithLoc>)
    ensures
        diags_view(r@) == title_diags(note@.headings),
{
    let mut out: Vec<DiagWithLoc> = Vec::new();
    let mut seen = false;
    let n = note.structure.headings.len();
    proof {
        assert(note@.headings.skip(0) =~= note@.headings);
        assert(diags_view(out@) =~= Seq::<(DiagV, Span)>::empty());
    }
    for i in 0..n
        invariant
            n == note.structure.headings@.len(),
            title_diags(note@.headings) == diags_view(out@) + title_diags_from(
                note@.headings.skip(i as int),
                seen,
            ),
    {
        let ghost hv = note@.headings;
        proof {
            assert(hv.skip(i as int).first() == hv[i as int]);
            assert(hv[i as int] == note.structure.headings@[i as int]@);
            assert(hv.skip(i as int).drop_first() =~= hv.skip(i + 1));
        }
        let h = &note.structure.headings[i];
        if h.level == 1 {
            if seen {
                let ghost out0 = out@;
                out.push((Diag::DupTitle { title: h.clone() }, h.span));
                proof {
                    assert(diags_view(out@) =~= diags_view(out0).push(
                        (DiagV::DupTitle { title: hv[i as int] }, hv[i as int].span),
                    ));
                    assert(diags_view(out0).push(
                        (DiagV::DupTitle { title: hv[i as int] }, hv[i as int].span),
                    ) + title_diags_from(hv.skip(i + 1), true) =~= diags_view(out0) + (seq![
                        (DiagV::DupTitle { title: hv[i as int] }, hv[i as int].span),
                    ] + title_diags_from(hv.skip(i + 1), true)));
                }
            } else {
                seen = true;
            }
        }
    }
    proof {
        assert(note@.headings.skip(n as int) =~= Seq::<HeadingV>::empty());
        assert(diags_view(out@) + Seq::<(DiagV, Span)>::empty() =~= diags_view(out@));
    }
    out
}

/// Partitions the headings of level greater than 1 into groups of equal
/// text by an ordered worklist: the first unresolved heading of a group
/// is canonical and unreported, every other member is reported at its
/// own span, and the whole group is removed from the worklist at once,
/// so every heading is visited exactly once.
pub fn check_headings(note: &Note) -> (r: Vec<DiagWithLoc>)
    ensures
        diags_view(r@) == heading_diags(note@.headings),
{
    let mut work: Vec<Heading> = Vec::new();
    let n = note.structure.headings.len();
    proof {
        assert(note@.headings.skip(0) =~= note@.headings);
        assert(headings_view(work@) =~= Seq::<HeadingV>::empty());
    }
    for i in 0..n
        invariant
            n == note.structure.headings@.len(),
            subs_of(note@.headings) == headings_view(work@) + subs_of(
                note@.headings.skip(i as int),
            ),
    {
        let ghost hv = note@.headings;
        proof {
            assert(hv.skip(i as int).first() == hv[i as int]);
            assert(hv[i as int] == note.structure.headings@[i as int]@);
            assert(hv.skip(i as int).drop_first() =~= hv.skip(i + 1));
        }
        let h = &note.structure.headings[i];
        if h.level > 1 {
            let ghost w0 = work@;
            work.push(h.clone());
            proof {
                assert(headings_view(work@) =~= headings_view(w0).push(hv[i as int]));
                assert(headings_view(w0).push(hv[i as int]) + subs_of(hv.skip(i + 1))
                    =~= headings_view(w0) + (seq![hv[i as int]] + subs_of(hv.skip(i + 1))));
            }
        }
    }
    proof {
        assert(note@.headings.skip(n as int) =~= Seq::<HeadingV>::empty());
        assert(headings_view(work@) + Seq::<HeadingV>::empty() =~= headings_view(work@));
    }

    let mut out: Vec<DiagWithLoc> = Vec::new();
    proof {
        assert(diags_view(out@) =~= Seq::<(DiagV, Span)>::empty());
        assert(diags_view(out@) + dup_diags(heading_dups(headings_view(work@)))
            =~= dup_diags(heading_dups(headings_view(work@))));
    }
    while work.len() > 0
        invariant
            heading_diags(note@.headings) == diags_view(out@) + dup_diags(
                heading_dups(headings_view(work@)),
            ),
        decreases work.len(),
    {
        let ghost w0 = headings_view(work@);
        let ghost t = w0.first().text;
        let head = work[0].clone();
        proof {
            assert(w0.first() == work@[0]@);
            assert(w0.drop_first() =~= w0.skip(1));
        }
        let m = work.len();
        let mut rest: Vec<Heading> = Vec::new();
        let ghost out0 = out@;
        let mut j: usize = 1;
        proof {
            assert(headings_view(rest@) =~= Seq::<HeadingV>::empty());
            assert(headings_view(rest@) + sans_text(w0.skip(1), t) =~= sans_text(w0.skip(1), t));
            assert(diags_view(out@) + dup_diags(with_text(w0.skip(1), t)) =~= diags_view(out0)
                + dup_diags(with_text(w0.skip(1), t)));
        }
        while j < m
            invariant
                1 <= j <= m,
                m == work@.len(),
                w0 == headings_view(work@),
                t == head@.text,
                w0.first() == head@,
                diags_view(out0) + dup_diags(with_text(w0.skip(1), t)) == diags_view(out@)
                    + dup_diags(with_text(w0.skip(j as int), t)),
                sans_text(w0.skip(1), t) == headings_view(rest@) + sans_text(
                    w0.skip(j as int),
                    t,
                ),
            decreases m - j,
        {
            proof {
                assert(w0.skip(j as int).first() == w0[j as int]);
                assert(w0[j as int] == work@[j as int]@);
                assert(w0.skip(j as int).drop_first() =~= w0.skip(j + 1));
            }
            if work[j].text == head.text {
                let ghost outp = out@;
                let dup = work[j].clone();
                let sp = dup.span;
                out.push((Diag::DupHeading { heading: dup }, sp));
                proof {
                    assert(diags_view(out@) =~= diags_view(outp).push(
                        (DiagV::DupHeading { heading: w0[j as int] }, w0[j as int].span),
                    ));
                    assert(diags_view(outp).push(
                        (DiagV::DupHeading { heading: w0[j as int] }, w0[j as int].span),
                    ) + dup_diags(with_text(w0.skip(j + 1), t)) =~= diags_view(outp) + (seq![
                        (DiagV::DupHeading { heading: w0[j as int] }, w0[j as int].span),
                    ] + dup_diags(with_text(w0.skip(j + 1), t))));
                    assert(dup_diags(seq![w0[j as int]] + with_text(w0.skip(j + 1), t)) =~= seq![
                        (DiagV::DupHeading { heading: w0[j as int] }, w0[j as int].span),
                    ] + dup_diags(with_text(w0.skip(j + 1), t)));
                }
            } else {
                let ghost restp = rest@;
                let kept = work[j].clone();
                rest.push(kept);
                proof {
                    assert(headings_view(rest@) =~= headings_view(restp).push(w0[j as int]));
                    assert(headings_view(restp).push(w0[j as int]) + sans_text(w0.skip(j + 1), t)
                        =~= headings_view(restp) + (seq![w0[j as int]] + sans_text(
                        w0.skip(j + 1),
                        t,
                    )));
                }
            }
            j = j + 1;
        }
        proof {
            assert(w0.skip(m as int) =~= Seq::<HeadingV>::empty());
            assert(dup_diags(Seq::<HeadingV>::empty()) =~= Seq::<(DiagV, Span)>::empty());
            assert(diags_view(out@) + Seq::<(DiagV, Span)>::empty() =~= diags_view(out@));
            assert(headings_view(rest@) + Seq::<HeadingV>::empty() =~= headings_view(rest@));
            // one unfolding of the worklist specification
            assert(heading_dups(w0) == with_text(w0.drop_first(), t) + heading_dups(
                sans_text(w0.drop_first(), t),
            ));
            assert(with_text(w0.drop_first(), t) == with_text(w0.skip(1), t));
            assert(sans_text(w0.drop_first(), t) == sans_text(w0.skip(1), t));
            assert(dup_diags(with_text(w0.skip(1), t) + heading_dups(headings_view(rest@)))
                =~= dup_diags(with_text(w0.skip(1), t)) + dup_diags(
                heading_dups(headings_view(rest@)),
            ));
            lemma_sans_text_len(w0.skip(1), t);
        }
        work = rest;
    }
    proof {
        assert(headings_view(work@) =~= Seq::<HeadingV>::empty());
        assert(dup_diags(heading_dups(Seq::<HeadingV>::empty())) =~= Seq::<(DiagV, Span)>::empty());
        assert(diags_view(out@) + Seq::<(DiagV, Span)>::empty() =~= diags_view(out@));
    }
    out
}

/// What the link rule reports for one link.  The effective target name
/// is the link's explicit name or, when absent, the current note's own
/// name.  An unresolved name is one broken-link-to-note report and no
/// heading check; a resolved name with a heading the target lacks is one
/// broken-link-to-heading report carrying the resolved name; anything
/// else is silence.
pub open spec fn link_diag(l: InternLinkV, self_name: Seq<char>, db: Seq<NoteV>) -> Seq<
    (DiagV, Span),
> {
    let target = match l.note_name {
        Some(n) => n,
        None => self_name,
    };
    match find_by_name_spec(db, target) {
        None => seq![(DiagV::BrokenInternLinkToNote { linked_note: target }, l.span)],
        Some(i) => match l.heading {
            Some(h) => if has_heading_text(db[i].headings, h) {
                Seq::empty()
            } else {
                seq![
                    (DiagV::BrokenInternLinkToHeading { linked_note: target, heading: h }, l.span),
                ]
            },
            None => Seq::empty(),
        },
    }
}

/// What the link rule reports for a note with links `ls`, in document order.
pub open spec fn link_diags(ls: Seq<InternLinkV>, self_name: Seq<char>, db: Seq<NoteV>) -> Seq<
    (DiagV, Span),
>
    decreases ls.len(),
{
    if ls.len() == 0 {
        Seq::empty()
    } else {
        link_diag(ls.first(), self_name, db) + link_diags(ls.drop_first(), self_name, db)
    }
}

/// Checks every internal link of the note against the vault index and,
/// where the link names a heading, against the target note's headings.
pub fn check_intern_links(facts: &FactsDB, note: &Note) -> (r: Vec<DiagWithLoc>)
    ensures
        diags_view(r@) == link_diags(note@.links, note@.name, facts@),
{
    let mut out: Vec<DiagWithLoc> = Vec::new();
    let n = note.structure.links.len();
    proof {
        assert(note@.links.skip(0) =~= note@.links);
        assert(diags_view(out@) =~= Seq::<(DiagV, Span)>::empty());
    }
    for i in 0..n
        invariant
            n == note.structure.links@.len(),
            link_diags(note@.links, note@.name, facts@) == diags_view(out@) + link_diags(
                note@.links.skip(i as int),
                note@.name,
                facts@,
            ),
    {
        let ghost lv = note@.links;
        proof {
            assert(lv.skip(i as int).first() == lv[i as int]);
            assert(lv[i as int] == note.structure.links@[i as int]@);
            assert(lv.skip(i as int).drop_first() =~= lv.skip(i + 1));
        }
        let link = &note.structure.links[i];
        let target_name: NoteName = match &link.note_name {
            Some(nm) => nm.clone(),
            None => note.name.clone(),
        };
        let ghost step = link_diag(lv[i as int], note@.name, facts@);
        let ghost out_pre = out@;
        match facts.find_by_name(&target_name) {
            Some(idx) => {
                if let Some(h) = &link.heading {
                    proof {
                        assert(facts@[idx as int].headings == facts.notes@[idx as int]@.headings);
                    }
                    if note_lacks_heading(&facts.notes[idx], h) {
                        out.push(
                            (
                                Diag::BrokenInternLinkToHeading {
                                    linked_note: target_name,
                                    heading: h.clone(),
                                },
                                link.span,
                            ),
                        );
                    }
                }
            },
            None => {
                out.push((Diag::BrokenInternLinkToNote { linked_note: target_name }, link.span));
            },
        }
        proof {
            if out@.len() == out_pre.len() {
                assert(diags_view(out@) =~= diags_view(out_pre));
                assert(step =~= Seq::<(DiagV, Span)>::empty());
                assert(diags_view(out@) + (step + link_diags(lv.skip(i + 1), note@.name, facts@))
                    =~= diags_view(out@) + link_diags(lv.skip(i + 1), note@.name, facts@));
            } else {
                assert(diags_view(out@) =~= diags_view(out_pre).push(step.first()));
                assert(step =~= seq![step.first()]);
                assert(diags_view(out_pre) + (step + link_diags(lv.skip(i + 1), note@.name, facts@))
                    =~= diags_view(out@) + link_diags(lv.skip(i + 1), note@.name, facts@));
            }
        }
    }
    proof {
        assert(note@.links.skip(n as int) =~= Seq::<InternLinkV>::empty());
        assert(diags_view(out@) + Seq::<(DiagV, Span)>::empty() =~= diags_view(out@));
    }
    out
}

/// True when the note has no heading with exactly this text.
fn note_lacks_heading(target: &Note, text: &String) -> (r: bool)
    ensures
        r == !has_heading_text(target@.headings, text@),
{
    let found = target.heading_with_text(text);
    match found {
        Some(_) => false,
        None => true,
    }
}


} // verus!
