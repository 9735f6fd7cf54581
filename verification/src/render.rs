//! What a rustc-style report of a diagnostic shows: its severity label, its
//! message and help text, and the range of source it points at. Writing the
//! report out is left to the caller.

use vstd::prelude::*;

use crate::diagnostics::{help_text, message_text, Diagnostic, Help, Severity};
use crate::text::utf8;

verus! {

/// The label a severity is reported under.
pub open spec fn severity_label(s: Severity) -> Seq<char> {
    match s {
        Severity::Error => "error"@,
        Severity::Warning => "warning"@,
        Severity::Info => "info"@,
        Severity::Hint => "hint"@,
    }
}

/// The help text of an optional help entry.
pub open spec fn help_view(h: Option<Help>) -> Option<Seq<char>> {
    match h {
        Some(x) => Some(help_text(x)),
        None => None,
    }
}

/// One report, ready to be laid out next to the source it points into.
pub struct SourceError {
    /// `error`, `warning`, `info` or `hint`.
    pub severity: String,
    /// The message text.
    pub message: String,
    /// Byte offset where the highlighted range starts.
    pub start_offset: usize,
    /// Byte offset where the highlighted range ends.
    pub end_offset: usize,
    /// The help line, if the diagnostic carries one.
    pub help: Option<String>,
}

/// A report as plain values.
pub struct ReportView {
    pub severity: Seq<char>,
    pub message: Seq<char>,
    pub start_offset: usize,
    pub end_offset: usize,
    pub help: Option<Seq<char>>,
}

impl View for SourceError {
    type V = ReportView;

    open spec fn view(&self) -> ReportView {
        ReportView {
            severity: self.severity@,
            message: self.message@,
            start_offset: self.start_offset,
            end_offset: self.end_offset,
            help: match self.help {
                Some(h) => Some(h@),
                None => None,
            },
        }
    }
}

/// What the report of a diagnostic shows.
pub open spec fn report_of(d: Diagnostic) -> ReportView {
    ReportView {
        severity: severity_label(d.severity),
        message: message_text(d.message),
        start_offset: d.start_offset,
        end_offset: d.end_offset,
        help: help_view(d.help),
    }
}

/// The reports of a list of diagnostics, in order.
pub open spec fn report_views(rs: Seq<SourceError>) -> Seq<ReportView> {
    rs.map_values(|r: SourceError| r@)
}

/// Some diagnostic of the list is an error.
pub open spec fn any_error(ds: Seq<Diagnostic>) -> bool {
    exists|i: int| 0 <= i < ds.len() && #[trigger] ds[i].severity == Severity::Error
}

/// The number of newline bytes before position `k`.
pub open spec fn newlines_before(b: Seq<u8>, k: int) -> nat
    decreases k,
{
    if k <= 0 || k > b.len() {
        0
    } else {
        newlines_before(b, k - 1) + if b[k - 1] == 10 {
            1nat
        } else {
            0nat
        }
    }
}

/// Where the line holding position `k` starts: just after the last newline
/// before `k`, or 0.
pub open spec fn line_start_of(b: Seq<u8>, k: int) -> int
    decreases k,
{
    if k <= 0 || k > b.len() {
        0
    } else if b[k - 1] == 10 {
        k
    } else {
        line_start_of(b, k - 1)
    }
}

/// Where the line holding position `k` ends: at the first newline from `k`
/// on, or at the end of the text.
pub open spec fn line_end_from(b: Seq<u8>, k: int) -> int
    decreases b.len() - k,
{
    if k < 0 || k >= b.len() {
        b.len() as int
    } else if b[k] == 10 {
        k
    } else {
        line_end_from(b, k + 1)
    }
}

/// Where in its source a report points, as byte positions.
pub struct ReportLocation {
    /// How many lines come before the one the report points at.
    pub line_index: usize,
    /// The byte offset of the report's start within its line.
    pub column_offset: usize,
    /// Byte offset where that line starts.
    pub line_start: usize,
    /// Byte offset where that line ends (before its newline).
    pub line_end: usize,
    /// How many bytes of the line to underline: the reported range cut at
    /// the line's end, and at least one.
    pub width: usize,
}

/// The location of a report whose range is `[start, end)` in `b`: the range's
/// start is first clamped to the text.
pub open spec fn location_of(b: Seq<u8>, start: usize, end: usize) -> ReportLocation {
    let p = if start <= b.len() {
        start as int
    } else {
        b.len() as int
    };
    let ls = line_start_of(b, p);
    let le = line_end_from(b, p);
    let cut = if end <= le {
        end as int
    } else {
        le
    };
    ReportLocation {
        line_index: newlines_before(b, p) as usize,
        column_offset: (p - ls) as usize,
        line_start: ls as usize,
        line_end: le as usize,
        width: if cut - p >= 1 {
            (cut - p) as usize
        } else {
            1
        },
    }
}

/// Renders diagnostics against a source text and the label of the file it
/// came from.
pub struct DiagnosticRenderer {
    source: String,
    file: String,
}

impl View for DiagnosticRenderer {
    type V = (Seq<char>, Seq<char>);

    closed spec fn view(&self) -> (Seq<char>, Seq<char>) {
        (self.source@, self.file@)
    }
}

impl DiagnosticRenderer {
    /// Create a renderer bound to a source string and display file label.
    pub fn new(source: &str, file: &str) -> (r: Self)
        ensures
            r@ == (source@, file@),
    {
        DiagnosticRenderer { source: source.to_string(), file: file.to_string() }
    }

    /// The source the reports point into.
    pub fn source(&self) -> (r: &str)
        ensures
            r@ == self@.0,
    {
        self.source.as_str()
    }

    /// The file label the reports name.
    pub fn file(&self) -> (r: &str)
        ensures
            r@ == self@.1,
    {
        self.file.as_str()
    }

    /// Where a report points in the renderer's source: the line before
    /// which so many lines come, the offset within that line, the line's
    /// range, and how much of it to underline.
    pub fn locate(&self, report: &SourceError) -> (r: ReportLocation)
        ensures
            r == location_of(utf8(self@.0), report.start_offset, report.end_offset),
    {
        let bytes = self.source.as_str().as_bytes();
        let ghost b = bytes@;
        assert(b == utf8(self@.0));
        let n = bytes.len();
        let p = if report.start_offset <= n {
            report.start_offset
        } else {
            n
        };
        let mut lines: usize = 0;
        let mut ls: usize = 0;
        let mut i: usize = 0;
        while i < p
            invariant
                0 <= i <= p <= n,
                n == b.len(),
                b == bytes@,
                lines == newlines_before(b, i as int),
                ls == line_start_of(b, i as int),
                lines <= i,
                ls <= i,
            decreases p - i,
        {
            if bytes[i] == 10u8 {
                lines = lines + 1;
                ls = i + 1;
            }
            i = i + 1;
        }
        let mut le: usize = p;
        while le < n && bytes[le] != 10u8
            invariant
                p <= le <= n,
                n == b.len(),
                b == bytes@,
                line_end_from(b, le as int) == line_end_from(b, p as int),
            decreases n - le,
        {
            le = le + 1;
        }
        let cut = if report.end_offset <= le {
            report.end_offset
        } else {
            le
        };
        let width = if cut > p && cut - p >= 1 {
            cut - p
        } else {
            1
        };
        ReportLocation { line_index: lines, column_offset: p - ls, line_start: ls, line_end: le, width }
    }

    /// The report of a single diagnostic.
    pub fn render_diagnostic(&self, diag: &Diagnostic) -> (r: SourceError)
        ensures
            r@ == report_of(*diag),
    {
        let severity = match diag.severity {
            Severity::Error => String::from_str("error"),
            Severity::Warning => String::from_str("warning"),
            Severity::Info => String::from_str("info"),
            Severity::Hint => String::from_str("hint"),
        };
        let help = match &diag.help {
            Some(h) => Some(h.to_display_string()),
            None => None,
        };
        SourceError {
            severity,
            message: diag.message.to_display_string(),
            start_offset: diag.start_offset,
            end_offset: diag.end_offset,
            help,
        }
    }

    /// The reports of all diagnostics, in order, and whether any of them is
    /// an error.
    pub fn render_diagnostics(&self, diags: &[Diagnostic]) -> (r: (Vec<SourceError>, bool))
        ensures
            report_views(r.0@) == diags@.map_values(|d: Diagnostic| report_of(d)),
            r.1 == any_error(diags@),
    {
        let ghost ds = diags@;
        let mut out: Vec<SourceError> = Vec::new();
        let mut has_errors = false;
        let mut i: usize = 0;
        while i < diags.len()
            invariant
                0 <= i <= ds.len(),
                ds == diags@,
                out@.len() == i,
                report_views(out@) == ds.take(i as int).map_values(|d: Diagnostic| report_of(d)),
                has_errors == any_error(ds.take(i as int)),
            decreases ds.len() - i,
        {
            let d = &diags[i];
            let ghost before = out@;
            if d.severity == Severity::Error {
                has_errors = true;
            }
            out.push(self.render_diagnostic(d));
            proof {
                let t = ds.take(i + 1);
                assert(t.take(i as int) =~= ds.take(i as int));
                assert forall|j: int| 0 <= j <= i implies #[trigger] report_views(out@)[j] == t.map_values(
                    |d: Diagnostic| report_of(d),
                )[j] by {
                    if j < i {
                        assert(out@[j] == before[j]);
                        assert(report_views(before)[j] == ds.take(i as int).map_values(|d: Diagnostic| report_of(d))[j]);
                    }
                }
                assert(report_views(out@) =~= t.map_values(|d: Diagnostic| report_of(d)));
                if ds[i as int].severity == Severity::Error {
                    assert(t[i as int].severity == Severity::Error);
                } else {
                    assert(any_error(t) == any_error(ds.take(i as int))) by {
                        if any_error(t) {
                            let k = choose|k: int| 0 <= k < t.len() && #[trigger] t[k].severity == Severity::Error;
                            assert(ds.take(i as int)[k].severity == Severity::Error);
                        }
                        if any_error(ds.take(i as int)) {
                            let k = choose|k: int| 0 <= k < i && #[trigger] ds.take(i as int)[k].severity == Severity::Error;
                            assert(t[k].severity == Severity::Error);
                        }
                    }
                }
            }
            i += 1;
        }
        assert(ds.take(i as int) =~= ds);
        (out, has_errors)
    }
}

} // verus!
