use zettel_diag::diag::Diag;
use zettel_diag::facts::{FactsDB, Note};
use zettel_diag::model::{Heading, NoteFile, NoteName, NoteStructure, Pos, Span};
use zettel_diag::publish::{build_report, to_publish, Severity};
use zettel_diag::text::TextIndex;

fn sp(sl: u32, sc: u32, el: u32, ec: u32) -> Span {
    Span { start: Pos { line: sl, col: sc }, end: Pos { line: el, col: ec } }
}

fn note_with_text(path: &str, name: &str, version: i32, text: &str) -> Note {
    Note {
        file: NoteFile { path: path.to_string() },
        name: NoteName { name: name.to_string() },
        version,
        index: TextIndex::new(text.to_string()),
        structure: NoteStructure { headings: vec![], links: vec![] },
    }
}

fn dup_title_at(text: &str, span: Span) -> (Diag, Span) {
    (
        Diag::DupTitle {
            title: Heading { id: 7, level: 1, text: text.to_string(), span },
        },
        span,
    )
}

#[test]
fn unknown_file_yields_no_report() {
    let db = FactsDB { notes: vec![note_with_text("/v/a.md", "a", 3, "# A\n")] };
    let file = NoteFile { path: "/v/missing.md".to_string() };
    assert!(build_report(&file, &vec![], &db).is_none());
    assert!(to_publish(&file, &vec![], &db).is_none());
}

#[test]
fn report_carries_version_and_translated_ranges() {
    let db = FactsDB { notes: vec![note_with_text("/v/a.md", "a", 42, "# A\n## B\n")] };
    let file = NoteFile { path: "/v/a.md".to_string() };
    let diags = vec![dup_title_at("A", sp(1, 3, 1, 4))];
    let rep = build_report(&file, &diags, &db).expect("known file must yield a report");
    assert_eq!(rep.version, 42);
    assert_eq!(rep.file.path, "/v/a.md");
    assert_eq!(rep.entries.len(), 1);
    assert_eq!(rep.entries[0].severity, Severity::Error);
    assert_eq!(
        rep.entries[0].message,
        "Duplicate title `A`. Each note should have at most one title"
    );
    // ASCII text: byte columns and UTF-16 columns coincide
    assert_eq!(rep.entries[0].range.start.line, 1);
    assert_eq!(rep.entries[0].range.start.character, 3);
    assert_eq!(rep.entries[0].range.end.character, 4);
}

#[test]
fn non_ascii_columns_are_reencoded() {
    // 'é' is two bytes in UTF-8 but one UTF-16 code unit
    let db = FactsDB { notes: vec![note_with_text("/v/a.md", "a", 1, "hé llo\n")] };
    let file = NoteFile { path: "/v/a.md".to_string() };
    // byte offset 3 is just past 'é'; as UTF-16 it is column 2
    let diags = vec![dup_title_at("x", sp(0, 3, 0, 4))];
    let rep = build_report(&file, &diags, &db).unwrap();
    assert_eq!(rep.entries.len(), 1);
    assert_eq!(rep.entries[0].range.start.character, 2);
    assert_eq!(rep.entries[0].range.end.character, 3);
}

#[test]
fn mid_character_column_is_dropped() {
    // 'é' occupies bytes 1..3 of this line, so byte column 2 is not a
    // character boundary: such a stale span is dropped, not fatal
    let db = FactsDB { notes: vec![note_with_text("/v/a.md", "a", 5, "héllo\n")] };
    let file = NoteFile { path: "/v/a.md".to_string() };
    let diags = vec![dup_title_at("x", sp(0, 2, 0, 2)), dup_title_at("x", sp(0, 1, 0, 3))];
    let rep = build_report(&file, &diags, &db).unwrap();
    assert_eq!(rep.entries.len(), 1);
    assert_eq!(rep.entries[0].range.start.character, 1);
    assert_eq!(rep.entries[0].range.end.character, 2);
    assert_eq!(rep.version, 5);
}

#[test]
fn stale_span_is_dropped_not_fatal() {
    let db = FactsDB { notes: vec![note_with_text("/v/a.md", "a", 7, "# A\n")] };
    let file = NoteFile { path: "/v/a.md".to_string() };
    // line 9 does not exist in this revision: that diagnostic is dropped,
    // the surviving one is kept
    let diags = vec![dup_title_at("A", sp(9, 0, 9, 1)), dup_title_at("A", sp(0, 0, 0, 1))];
    let rep = build_report(&file, &diags, &db).unwrap();
    assert_eq!(rep.entries.len(), 1);
    assert_eq!(rep.entries[0].range.start.line, 0);
    assert_eq!(rep.version, 7);
}

#[test]
fn published_params_match_protocol_shape() {
    let db = FactsDB { notes: vec![note_with_text("/v/a.md", "a", 9, "# A\n")] };
    let file = NoteFile { path: "/v/a.md".to_string() };
    let diags = vec![dup_title_at("A", sp(0, 2, 0, 3))];
    let params = to_publish(&file, &diags, &db).expect("absolute path must publish");
    assert_eq!(params.uri.as_str(), "file:///v/a.md");
    assert_eq!(params.version, Some(9));
    assert_eq!(params.diagnostics.len(), 1);
    let d = &params.diagnostics[0];
    assert_eq!(d.severity, Some(lsp_types::DiagnosticSeverity::ERROR));
    assert_eq!(d.message, "Duplicate title `A`. Each note should have at most one title");
    assert_eq!(d.range.start.line, 0);
    assert_eq!(d.range.start.character, 2);
    assert_eq!(d.range.end.character, 3);
    assert_eq!(d.code, None);
    assert_eq!(d.source, None);
}

#[test]
fn relative_path_publishes_nothing() {
    let db = FactsDB { notes: vec![note_with_text("relative.md", "a", 1, "x\n")] };
    let file = NoteFile { path: "relative.md".to_string() };
    assert!(to_publish(&file, &vec![], &db).is_none());
}
