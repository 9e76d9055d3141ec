//! The publish adapter: combines a file's cached diagnostics with a
//! fact-store snapshot into one client-ready report.  An unknown file
//! yields no report; a span the current position index cannot translate
//! drops only that diagnostic; the report carries the note's current
//! text-revision stamp so a client can discard superseded reports.

use vstd::prelude::*;
use crate::diag::{DiagV, DiagWithLoc, diags_view, message_of};
use crate::facts::{FactsDB, find_by_path_spec};
use crate::model::{NoteFile, Span};
use crate::text::{LspRange, lsp_range_of, span_ok};

verus! {

/// The one severity this engine reports at.
#[derive(Clone, Copy, Debug, PartialEq, Eq, Structural)]
pub enum Severity {
    Error,
}

/// One successfully translated diagnostic of a report.
#[derive(Debug)]
pub struct ReportEntry {
    pub range: LspRange,
    pub severity: Severity,
    pub message: String,
}

/// The mathematical value of a [`ReportEntry`].
#[verifier::ext_equal]
pub struct ReportEntryV {
    pub range: LspRange,
    pub severity: Severity,
    pub message: Seq<char>,
}

impl View for ReportEntry {
    type V = ReportEntryV;

    open spec fn view(&self) -> ReportEntryV {
        ReportEntryV { range: self.range, severity: self.severity, message: self.message@ }
    }
}

/// The views of a sequence of report entries.
pub open spec fn entries_view(es: Seq<ReportEntry>) -> Seq<ReportEntryV> {
    es.map_values(|e: ReportEntry| e@)
}

/// One client-ready report: the target location, the successfully
/// translated diagnostics in stored order, and the text revision the
/// spans were resolved against.
#[derive(Debug)]
pub struct Report {
    pub file: NoteFile,
    pub version: i32,
    pub entries: Vec<ReportEntry>,
}

/// The entries a report holds for the diagnostics `ds` against a note
/// text: each diagnostic whose span sits on character boundaries of the
/// text and which the index translates, rendered at the translated range
/// with its message, at the fixed severity.  A diagnostic whose span the
/// index cannot translate — a line past the text, or a stale column off
/// a boundary of the current revision — is dropped, and only it.
pub open spec fn report_entries(ds: Seq<(DiagV, Span)>, text: Seq<char>) -> Seq<ReportEntryV>
    decreases ds.len(),
{
    if ds.len() == 0 {
        Seq::empty()
    } else {
        (if span_ok(text, ds.first().1) {
            match lsp_range_of(text, ds.first().1) {
                Some(rg) => seq![
                    ReportEntryV {
                        range: rg,
                        severity: Severity::Error,
                        message: message_of(ds.first().0),
                    },
                ],
                None => Seq::empty(),
            }
        } else {
            Seq::empty()
        }) + report_entries(ds.drop_first(), text)
    }
}

/// Build the report for `file` from its cached diagnostics and the
/// current fact snapshot.  An unknown file yields no report; a known
/// file yields exactly the translatable diagnostics, stamped with the
/// note's current revision.
pub fn build_report(file: &NoteFile, diags: &Vec<DiagWithLoc>, facts: &FactsDB) -> (r: Option<
    Report,
>)
    ensures
        match find_by_path_spec(facts@, file@) {
            None => r is None,
            Some(i) => r is Some && r.unwrap().file@ == file@ && r.unwrap().version
                == facts@[i].version && entries_view(r.unwrap().entries@) == report_entries(
                diags_view(diags@),
                facts@[i].text,
            ),
        },
{
    let found = facts.find_by_path(&file.path);
    match found {
        None => None,
        Some(i) => {
            let note = &facts.notes[i];
            let ghost text = facts@[i as int].text;
            let ghost dv = diags_view(diags@);
            proof {
                assert(note@ == facts@[i as int]);
                assert(dv.skip(0) =~= dv);
            }
            let mut entries: Vec<ReportEntry> = Vec::new();
            let n = diags.len();
            proof {
                assert(entries_view(entries@) =~= Seq::<ReportEntryV>::empty());
            }
            for k in 0..n
                invariant
                    n == diags@.len(),
                    dv == diags_view(diags@),
                    text == facts@[i as int].text,
                    i < facts@.len(),
                    note == facts.notes@[i as int],
                    note@ == facts@[i as int],
                    report_entries(dv, text) == entries_view(entries@) + report_entries(
                        dv.skip(k as int),
                        text,
                    ),
            {
                proof {
                    assert(dv.skip(k as int).first() == dv[k as int]);
                    assert(dv[k as int] == (diags@[k as int].0@, diags@[k as int].1));
                    assert(dv.skip(k as int).drop_first() =~= dv.skip(k + 1));
                }
                let d = &diags[k];
                if note.index.span_in_bounds(&d.1) {
                    match note.index.to_lsp_range(&d.1) {
                        Some(rg) => {
                            let ghost e0 = entries@;
                            entries.push(
                                ReportEntry {
                                    range: rg,
                                    severity: Severity::Error,
                                    message: d.0.to_message(),
                                },
                            );
                            proof {
                                let ev = ReportEntryV {
                                    range: rg,
                                    severity: Severity::Error,
                                    message: message_of(dv[k as int].0),
                                };
                                assert(entries_view(entries@) =~= entries_view(e0).push(ev));
                                assert(entries_view(e0).push(ev) + report_entries(
                                    dv.skip(k + 1),
                                    text,
                                ) =~= entries_view(e0) + (seq![ev] + report_entries(
                                    dv.skip(k + 1),
                                    text,
                                )));
                            }
                        },
                        None => {
                        },
                    }
                }
            }
            proof {
                assert(dv.skip(n as int) =~= Seq::<(DiagV, Span)>::empty());
                assert(entries_view(entries@) + Seq::<ReportEntryV>::empty() =~= entries_view(
                    entries@,
                ));
            }
            Some(Report { file: file.clone(), version: note.version, entries })
        },
    }
}

#[verifier::external_type_specification]
#[verifier::external_body]
pub struct ExUrl(lsp_types::Url);

#[verifier::external_type_specification]
#[verifier::external_body]
pub struct ExPublishDiagnosticsParams(lsp_types::PublishDiagnosticsParams);

/// Whether the platform's file-URL parser accepts a path: acceptance is
/// purely syntactic on the path's characters (here, that the path is
/// absolute), with no look at the environment or the disk.
pub uninterp spec fn file_url_ok(path: Seq<char>) -> bool;

/// Relies on `lsp_types::Url::from_file_path`: it parses the path into
/// a `file:` URL, and refuses it (`None` here) exactly when the path is
/// not an absolute one for this platform — [`file_url_ok`] names that
/// acceptance.
#[verifier::external_body]
fn url_from_path(path: &String) -> (r: Option<lsp_types::Url>)
    ensures
        r is Some <==> file_url_ok(path@),
{
    match lsp_types::Url::from_file_path(path.as_str()) {
        Ok(u) => Some(u),
        Err(()) => None,
    }
}

/// Relies on `lsp_types::Diagnostic::default` for the fields this engine
/// never fills; everything else is carried over field by field.
#[verifier::external_body]
fn publish_params(
    uri: lsp_types::Url,
    version: i32,
    entries: Vec<ReportEntry>,
) -> (r: lsp_types::PublishDiagnosticsParams) {
    let diagnostics = entries
        .into_iter()
        .map(|e| lsp_types::Diagnostic {
            range: lsp_types::Range {
                start: lsp_types::Position { line: e.range.start.line, character: e.range.start.character },
                end: lsp_types::Position { line: e.range.end.line, character: e.range.end.character },
            },
            severity: Some(match e.severity {
                Severity::Error => lsp_types::DiagnosticSeverity::ERROR,
            }),
            message: e.message,
            ..lsp_types::Diagnostic::default()
        })
        .collect();
    lsp_types::PublishDiagnosticsParams { uri, diagnostics, version: Some(version) }
}

/// Turn a file's cached diagnostics into the client-ready protocol
/// value.  A report is produced exactly for a known file whose path the
/// platform's file-URL parser accepts; the verified shape of what is
/// published is stated on [`build_report`].
pub fn to_publish(file: &NoteFile, diags: &Vec<DiagWithLoc>, facts: &FactsDB) -> (r: Option<
    lsp_types::PublishDiagnosticsParams,
>)
    ensures
        r is Some <==> (find_by_path_spec(facts@, file@) is Some && file_url_ok(file@)),
{
    match build_report(file, diags, facts) {
        None => None,
        Some(rep) => match url_from_path(&rep.file.path) {
            None => None,
            Some(url) => Some(publish_params(url, rep.version, rep.entries)),
        },
    }
}

} // verus!
