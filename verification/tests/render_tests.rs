//! Where a report points in its source.

use syntaqlite::diagnostics::{Diagnostic, DiagnosticMessage, Help, Severity};
use syntaqlite::render::DiagnosticRenderer;

fn unknown_table(start: usize, end: usize) -> Diagnostic {
    Diagnostic {
        start_offset: start,
        end_offset: end,
        message: DiagnosticMessage::UnknownTable { name: "usr".to_string() },
        severity: Severity::Error,
        help: Some(Help::Suggestion("users".to_string())),
    }
}

#[test]
fn locate_on_first_line() {
    let src = "SELECT id FROM usr WHERE id = 1";
    let r = DiagnosticRenderer::new(src, "query.sql");
    let report = r.render_diagnostic(&unknown_table(15, 18));
    assert_eq!(report.help.as_deref(), Some("did you mean 'users'?"));
    let at = r.locate(&report);
    assert_eq!(at.line_index, 0);
    assert_eq!(at.column_offset, 15);
    assert_eq!(at.line_start, 0);
    assert_eq!(at.line_end, src.len());
    assert_eq!(at.width, 3);
}

#[test]
fn locate_on_later_line_cuts_at_line_end() {
    let src = "SELECT 1;\nSELECT id\nFROM usr";
    let r = DiagnosticRenderer::new(src, "q.sql");
    let at = r.locate(&r.render_diagnostic(&unknown_table(17, 30)));
    assert_eq!(at.line_index, 1);
    assert_eq!(at.line_start, 10);
    assert_eq!(at.column_offset, 7);
    assert_eq!(at.line_end, 19);
    assert_eq!(at.width, 2);
}

#[test]
fn locate_past_the_end_is_clamped() {
    let src = "SELECT";
    let r = DiagnosticRenderer::new(src, "q.sql");
    let at = r.locate(&r.render_diagnostic(&unknown_table(40, 41)));
    assert_eq!(at.line_index, 0);
    assert_eq!(at.column_offset, 6);
    assert_eq!(at.width, 1);
}

#[test]
fn arity_message_writes_numbers_in_decimal() {
    let m = DiagnosticMessage::FunctionArity { name: "f".to_string(), expected: vec![0, 10, 7], got: 1203 };
    assert_eq!(m.to_display_string(), "function 'f' expects 0 or 10 or 7 argument(s), got 1203");
    let c = DiagnosticMessage::CteColumnCountMismatch { name: "c".to_string(), declared: 2, actual: 19 };
    assert_eq!(c.to_display_string(), "table 'c' has 19 values for 2 columns");
}
