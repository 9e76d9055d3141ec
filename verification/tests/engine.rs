use zettel_diag::collection::{diag_set_eq, DiagCollection};
use zettel_diag::diag::{diag_loc_eq, Diag, DiagWithLoc};
use zettel_diag::facts::{FactsDB, Note};
use zettel_diag::model::{Heading, InternLink, NoteFile, NoteName, NoteStructure, Pos, Span};
use zettel_diag::rules::{check_headings, check_intern_links, check_title};
use zettel_diag::text::TextIndex;

fn sp(line: u32, col: u32, end_col: u32) -> Span {
    Span { start: Pos { line, col }, end: Pos { line, col: end_col } }
}

fn hd(id: u32, level: u32, text: &str, line: u32) -> Heading {
    Heading { id, level, text: text.to_string(), span: sp(line, 0, 1) }
}

fn ln(note: Option<&str>, heading: Option<&str>, line: u32) -> InternLink {
    InternLink {
        note_name: note.map(|n| NoteName { name: n.to_string() }),
        heading: heading.map(|h| h.to_string()),
        span: sp(line, 0, 1),
    }
}

fn note(path: &str, name: &str, version: i32, text: &str, headings: Vec<Heading>, links: Vec<InternLink>) -> Note {
    Note {
        file: NoteFile { path: path.to_string() },
        name: NoteName { name: name.to_string() },
        version,
        index: TextIndex::new(text.to_string()),
        structure: NoteStructure { headings, links },
    }
}

fn message_texts(diags: &[DiagWithLoc]) -> Vec<String> {
    diags.iter().map(|d| d.0.to_message()).collect()
}

#[test]
fn title_rule_no_title() {
    let n = note("/v/a.md", "a", 1, "x\n", vec![hd(0, 2, "Sub", 0)], vec![]);
    assert_eq!(check_title(&n).len(), 0);
}

#[test]
fn title_rule_single_title() {
    let n = note("/v/a.md", "a", 1, "# A\n", vec![hd(0, 1, "A", 0)], vec![]);
    assert_eq!(check_title(&n).len(), 0);
}

#[test]
fn title_rule_reports_all_after_first() {
    let hs = vec![hd(0, 1, "A", 0), hd(1, 1, "B", 1), hd(2, 2, "C", 2), hd(3, 1, "D", 3)];
    let n = note("/v/a.md", "a", 1, "t\n", hs, vec![]);
    let out = check_title(&n);
    assert_eq!(out.len(), 2);
    assert_eq!(out[0].1, sp(1, 0, 1));
    assert_eq!(out[1].1, sp(3, 0, 1));
    assert_eq!(
        out[0].0.to_message(),
        "Duplicate title `B`. Each note should have at most one title"
    );
    assert_eq!(
        out[1].0.to_message(),
        "Duplicate title `D`. Each note should have at most one title"
    );
}

#[test]
fn heading_rule_counts_per_group() {
    // A at ids 1,3,5 (three members), B at ids 2,4 (two members)
    let hs = vec![
        hd(0, 1, "T", 0),
        hd(1, 2, "A", 1),
        hd(2, 2, "B", 2),
        hd(3, 2, "A", 3),
        hd(4, 2, "B", 4),
        hd(5, 2, "A", 5),
    ];
    let n = note("/v/a.md", "a", 1, "t\n", hs, vec![]);
    let out = check_headings(&n);
    assert_eq!(out.len(), 3);
    let msgs = message_texts(&out);
    assert_eq!(msgs.iter().filter(|m| *m == "Duplicate heading `A`").count(), 2);
    assert_eq!(msgs.iter().filter(|m| *m == "Duplicate heading `B`").count(), 1);
    // the canonical members (first occurrences, lines 1 and 2) are unreported
    assert!(out.iter().all(|d| d.1 != sp(1, 0, 1)));
    assert!(out.iter().all(|d| d.1 != sp(2, 0, 1)));
    // no heading is reported twice
    let mut spans: Vec<Span> = out.iter().map(|d| d.1).collect();
    spans.sort_by_key(|s| (s.start.line, s.start.col));
    spans.dedup();
    assert_eq!(spans.len(), 3);
}

#[test]
fn heading_rule_reports_group_by_group() {
    // groups are resolved in order of their first occurrence: the A group
    // (ids 0 and 3) is finished before the B group (ids 1 and 2), so A's
    // duplicate is reported first even though B's sits earlier in the text
    let hs = vec![hd(0, 2, "A", 0), hd(1, 2, "B", 1), hd(2, 2, "B", 2), hd(3, 2, "A", 3)];
    let n = note("/v/a.md", "a", 1, "t\n", hs, vec![]);
    let out = check_headings(&n);
    assert_eq!(out.len(), 2);
    assert_eq!(out[0].0.to_message(), "Duplicate heading `A`");
    assert_eq!(out[0].1, sp(3, 0, 1));
    assert_eq!(out[1].0.to_message(), "Duplicate heading `B`");
    assert_eq!(out[1].1, sp(2, 0, 1));
}

#[test]
fn heading_rule_singletons_silent() {
    let hs = vec![hd(0, 2, "A", 0), hd(1, 2, "B", 1), hd(2, 3, "C", 2)];
    let n = note("/v/a.md", "a", 1, "t\n", hs, vec![]);
    assert_eq!(check_headings(&n).len(), 0);
}

#[test]
fn heading_rule_ignores_titles() {
    // duplicate level-1 headings are the title rule's business alone
    let hs = vec![hd(0, 1, "A", 0), hd(1, 1, "A", 1)];
    let n = note("/v/a.md", "a", 1, "t\n", hs, vec![]);
    assert_eq!(check_headings(&n).len(), 0);
}

#[test]
fn example_two_titles_two_setups() {
    let hs = vec![
        hd(0, 1, "Intro", 0),
        hd(1, 1, "Intro", 1),
        hd(2, 2, "Setup", 2),
        hd(3, 2, "Setup", 3),
    ];
    let n = note("/v/a.md", "a", 1, "t\n", hs, vec![]);
    let titles = check_title(&n);
    assert_eq!(titles.len(), 1);
    assert_eq!(titles[0].1, sp(1, 0, 1));
    let heads = check_headings(&n);
    assert_eq!(heads.len(), 1);
    assert_eq!(heads[0].0.to_message(), "Duplicate heading `Setup`");
    assert_eq!(heads[0].1, sp(3, 0, 1));
}

#[test]
fn link_rule_missing_note() {
    let a = note("/v/a.md", "a", 1, "t\n", vec![], vec![ln(Some("ghost"), Some("H"), 0)]);
    let db = FactsDB { notes: vec![a] };
    let out = check_intern_links(&db, &db.notes[0]);
    assert_eq!(out.len(), 1);
    assert_eq!(out[0].0.to_message(), "Reference to non-existent note `ghost`");
    assert_eq!(out[0].1, sp(0, 0, 1));
    assert!(!matches!(out[0].0, Diag::BrokenInternLinkToHeading { .. }));
}

#[test]
fn link_rule_missing_heading_in_other_note() {
    let a = note("/v/a.md", "a", 1, "t\n", vec![], vec![ln(Some("b"), Some("Gone"), 2)]);
    let b = note("/v/b.md", "b", 1, "t\n", vec![hd(0, 2, "Here", 0)], vec![]);
    let db = FactsDB { notes: vec![a, b] };
    let out = check_intern_links(&db, &db.notes[0]);
    assert_eq!(out.len(), 1);
    // resolved note name and requested heading, concatenated without separator
    assert_eq!(out[0].0.to_message(), "Reference to non-existent heading `b`Gone");
    assert_eq!(out[0].1, sp(2, 0, 1));
}

#[test]
fn link_rule_self_link_present_heading() {
    let a = note(
        "/v/a.md",
        "a",
        1,
        "t\n",
        vec![hd(0, 2, "Here", 0)],
        vec![ln(None, Some("Here"), 1), ln(None, None, 2)],
    );
    let db = FactsDB { notes: vec![a] };
    let out = check_intern_links(&db, &db.notes[0]);
    assert_eq!(out.len(), 0);
}

#[test]
fn link_rule_self_link_missing_heading_uses_resolved_name() {
    let a = note("/v/a.md", "a", 1, "t\n", vec![], vec![ln(None, Some("Gone"), 0)]);
    let db = FactsDB { notes: vec![a] };
    let out = check_intern_links(&db, &db.notes[0]);
    assert_eq!(out.len(), 1);
    assert_eq!(out[0].0.to_message(), "Reference to non-existent heading `a`Gone");
}

#[test]
fn link_rule_resolved_without_heading_is_silent() {
    let a = note("/v/a.md", "a", 1, "t\n", vec![], vec![ln(Some("b"), None, 0)]);
    let b = note("/v/b.md", "b", 1, "t\n", vec![], vec![]);
    let db = FactsDB { notes: vec![a, b] };
    assert_eq!(check_intern_links(&db, &db.notes[0]).len(), 0);
}

#[test]
fn rules_are_idempotent_on_unchanged_snapshot() {
    let hs = vec![hd(0, 1, "A", 0), hd(1, 1, "A", 1), hd(2, 2, "S", 2), hd(3, 2, "S", 3)];
    let a = note("/v/a.md", "a", 1, "t\n", hs, vec![ln(Some("ghost"), None, 4)]);
    let db = FactsDB { notes: vec![a] };
    let n = &db.notes[0];
    let first: Vec<DiagWithLoc> = check_title(n)
        .into_iter()
        .chain(check_headings(n))
        .chain(check_intern_links(&db, n))
        .collect();
    let second: Vec<DiagWithLoc> = check_title(n)
        .into_iter()
        .chain(check_headings(n))
        .chain(check_intern_links(&db, n))
        .collect();
    assert_eq!(first.len(), second.len());
    assert!(first.iter().zip(second.iter()).all(|(x, y)| diag_loc_eq(x, y)));
    assert!(diag_set_eq(&first, &second));
}

#[test]
fn collection_replace_and_get() {
    let mut coll = DiagCollection::new();
    let file = NoteFile { path: "/v/a.md".to_string() };
    let d1 = (
        Diag::BrokenInternLinkToNote { linked_note: NoteName { name: "x".to_string() } },
        sp(0, 0, 1),
    );
    let d2 = (Diag::DupHeading { heading: hd(1, 2, "S", 1) }, sp(1, 0, 1));

    // empty store: nothing computed yet
    assert_eq!(coll.get(&file).len(), 0);
    // storing an empty set where none was stored is no change
    assert!(!coll.replace(file.clone(), vec![]));

    let changed = coll.replace(file.clone(), vec![d1.clone(), d2.clone()]);
    assert!(changed);
    assert_eq!(coll.get(&file).len(), 2);
    assert!(diag_loc_eq(&coll.get(&file)[0], &d1));

    // an equal set, even in another order, is no change
    assert!(!coll.replace(file.clone(), vec![d2.clone(), d1.clone()]));
    // a genuinely different set is a change
    assert!(coll.replace(file.clone(), vec![d1.clone()]));
    assert_eq!(coll.get(&file).len(), 1);

    // other files are untouched
    let other = NoteFile { path: "/v/b.md".to_string() };
    assert_eq!(coll.get(&other).len(), 0);
}

#[test]
fn collection_default_is_empty() {
    let coll = DiagCollection::default();
    assert_eq!(coll.get(&NoteFile { path: "/v/a.md".to_string() }).len(), 0);
}
