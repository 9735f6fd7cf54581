//! Diagnostic values produced by semantic validation.
//!
//! [`Diagnostic`] values carry byte-offset spans, structured messages, and
//! optional "did you mean?" suggestions. Both parse errors and semantic
//! issues (unknown table, wrong arity, etc.) are represented uniformly.

use vstd::prelude::*;

verus! {

/// A diagnostic message associated with a source range.
#[derive(Debug, Clone)]
pub struct Diagnostic {
    /// Byte offset of the start of the diagnostic range.
    pub start_offset: usize,
    /// Byte offset of the end of the diagnostic range.
    pub end_offset: usize,
    /// Structured diagnostic message.
    pub message: DiagnosticMessage,
    /// Severity level.
    pub severity: Severity,
    /// Optional structured help attached to the diagnostic.
    pub help: Option<Help>,
}

/// Structured diagnostic message.
///
/// Each variant carries the identifiers needed for machine-readable
/// consumption; [`DiagnosticMessage::to_display_string`] produces the
/// human-readable form.
#[derive(Debug, Clone)]
pub enum DiagnosticMessage {
    /// Referenced table name was not found in any catalog layer.
    UnknownTable {
        /// The unresolved table name.
        name: String,
    },
    /// Referenced column name was not found in the current scope.
    UnknownColumn {
        /// The unresolved column name.
        column: String,
        /// Optional table qualifier used by the query.
        table: Option<String>,
    },
    /// Function name was not found in the function catalog.
    UnknownFunction {
        /// The unresolved function name.
        name: String,
    },
    /// Function exists, but the call arity is invalid.
    FunctionArity {
        /// The function name.
        name: String,
        /// Accepted fixed arities.
        expected: Vec<usize>,
        /// Arity supplied by the call.
        got: usize,
    },
    /// A CTE declares a different number of columns than its body yields.
    CteColumnCountMismatch {
        /// The CTE name.
        name: String,
        /// How many column names the CTE declares.
        declared: usize,
        /// How many result columns its body has.
        actual: usize,
    },
    /// Catch-all for parse errors and other unstructured messages.
    Other(String),
}

/// Structured help information attached to a diagnostic.
#[derive(Debug, Clone)]
pub enum Help {
    /// A "did you mean?" suggestion with the corrected identifier.
    Suggestion(String),
}

/// Diagnostic severity level.
#[derive(Debug, Clone, Copy, PartialEq, Eq, Structural)]
pub enum Severity {
    /// Blocking issue that should fail validation.
    Error,
    /// Suspicious but non-fatal issue.
    Warning,
    /// Informational diagnostic.
    Info,
    /// Lowest-severity diagnostic, usually a suggestion.
    Hint,
}

/// Decimal digits of a number, most significant first.
pub open spec fn decimal(n: nat) -> Seq<char>
    decreases n,
{
    if n < 10 {
        seq![((n + 48) as u32) as char]
    } else {
        decimal(n / 10).push((((n % 10) + 48) as u32) as char)
    }
}

/// The one-character text of a decimal digit.
fn digit_text(d: usize) -> (r: &'static str)
    requires
        d < 10,
    ensures
        r@ == seq![((d + 48) as u32) as char],
{
    match d {
        0 => {
            proof {
                reveal_strlit("0");
            }
            "0"
        },
        1 => {
            proof {
                reveal_strlit("1");
            }
            "1"
        },
        2 => {
            proof {
                reveal_strlit("2");
            }
            "2"
        },
        3 => {
            proof {
                reveal_strlit("3");
            }
            "3"
        },
        4 => {
            proof {
                reveal_strlit("4");
            }
            "4"
        },
        5 => {
            proof {
                reveal_strlit("5");
            }
            "5"
        },
        6 => {
            proof {
                reveal_strlit("6");
            }
            "6"
        },
        7 => {
            proof {
                reveal_strlit("7");
            }
            "7"
        },
        8 => {
            proof {
                reveal_strlit("8");
            }
            "8"
        },
        _ => {
            proof {
                reveal_strlit("9");
            }
            "9"
        },
    }
}

/// The decimal representation of `n`.
pub(crate) fn usize_to_string(n: usize) -> (r: String)
    ensures
        r@ == decimal(n as nat),
    decreases n,
{
    if n < 10 {
        String::from_str(digit_text(n))
    } else {
        let mut s = usize_to_string(n / 10);
        s.append(digit_text(n % 10));
        s
    }
}

/// Numbers in decimal, separated by `" or "`.
pub open spec fn joined_with_or(ns: Seq<usize>) -> Seq<char>
    decreases ns.len(),
{
    if ns.len() == 0 {
        Seq::empty()
    } else if ns.len() == 1 {
        decimal(ns[0] as nat)
    } else {
        joined_with_or(ns.drop_last()) + " or "@ + decimal(ns.last() as nat)
    }
}

/// The human-readable text of a message.
pub open spec fn message_text(m: DiagnosticMessage) -> Seq<char> {
    match m {
        DiagnosticMessage::UnknownTable { name } => "unknown table '"@ + name@ + "'"@,
        DiagnosticMessage::UnknownColumn { column, table } => match table {
            Some(t) => "unknown column '"@ + column@ + "' in table '"@ + t@ + "'"@,
            None => "unknown column '"@ + column@ + "'"@,
        },
        DiagnosticMessage::UnknownFunction { name } => "unknown function '"@ + name@ + "'"@,
        DiagnosticMessage::FunctionArity { name, expected, got } => "function '"@ + name@
            + "' expects "@ + joined_with_or(expected@) + " argument(s), got "@ + decimal(
            got as nat,
        ),
        DiagnosticMessage::CteColumnCountMismatch { name, declared, actual } => "table '"@ + name@ + "' has "@
            + decimal(actual as nat) + " values for "@ + decimal(declared as nat) + " columns"@,
        DiagnosticMessage::Other(msg) => msg@,
    }
}

/// The human-readable text of a help entry.
pub open spec fn help_text(h: Help) -> Seq<char> {
    match h {
        Help::Suggestion(s) => "did you mean '"@ + s@ + "'?"@,
    }
}

impl DiagnosticMessage {
    /// Returns `true` for parse errors (`Other`), `false` for semantic diagnostics.
    pub fn is_parse_error(&self) -> (r: bool)
        ensures
            r == (self is Other),
    {
        match self {
            DiagnosticMessage::Other(_) => true,
            _ => false,
        }
    }

    /// The human-readable form of the message.
    pub fn to_display_string(&self) -> (r: String)
        ensures
            r@ == message_text(*self),
    {
        match self {
            DiagnosticMessage::UnknownTable { name } => {
                let mut s = String::from_str("unknown table '");
                s.append(name.as_str());
                s.append("'");
                s
            },
            DiagnosticMessage::UnknownColumn { column, table } => {
                let mut s = String::from_str("unknown column '");
                s.append(column.as_str());
                match table {
                    Some(t) => {
                        s.append("' in table '");
                        s.append(t.as_str());
                        s.append("'");
                    },
                    None => {
                        s.append("'");
                    },
                }
                s
            },
            DiagnosticMessage::UnknownFunction { name } => {
                let mut s = String::from_str("unknown function '");
                s.append(name.as_str());
                s.append("'");
                s
            },
            DiagnosticMessage::FunctionArity { name, expected, got } => {
                let mut s = String::from_str("function '");
                s.append(name.as_str());
                s.append("' expects ");
                let mut i: usize = 0;
                while i < expected.len()
                    invariant
                        0 <= i <= expected@.len(),
                        s@ == "function '"@ + name@ + "' expects "@ + joined_with_or(
                            expected@.take(i as int),
                        ),
                    decreases expected@.len() - i,
                {
                    if i > 0 {
                        s.append(" or ");
                    }
                    let digits = usize_to_string(expected[i]);
                    s.append(digits.as_str());
                    proof {
                        let t = expected@.take(i + 1);
                        assert(t.drop_last() =~= expected@.take(i as int));
                    }
                    i += 1;
                }
                assert(expected@.take(i as int) =~= expected@);
                s.append(" argument(s), got ");
                let g = usize_to_string(*got);
                s.append(g.as_str());
                s
            },
            DiagnosticMessage::CteColumnCountMismatch { name, declared, actual } => {
                let mut s = String::from_str("table '");
                s.append(name.as_str());
                s.append("' has ");
                let a = usize_to_string(*actual);
                s.append(a.as_str());
                s.append(" values for ");
                let d = usize_to_string(*declared);
                s.append(d.as_str());
                s.append(" columns");
                s
            },
            DiagnosticMessage::Other(msg) => msg.clone(),
        }
    }
}

impl Help {
    /// The human-readable form of the help entry.
    pub fn to_display_string(&self) -> (r: String)
        ensures
            r@ == help_text(*self),
    {
        match self {
            Help::Suggestion(v) => {
                let mut s = String::from_str("did you mean '");
                s.append(v.as_str());
                s.append("'?");
                s
            },
        }
    }
}


// ── Plain-value views ────────────────────────────────────────────────────────

/// A diagnostic message as plain values.
pub enum MessageView {
    UnknownTable { name: Seq<char> },
    UnknownColumn { column: Seq<char>, table: Option<Seq<char>> },
    UnknownFunction { name: Seq<char> },
    FunctionArity { name: Seq<char>, expected: Seq<usize>, got: usize },
    CteColumnCountMismatch { name: Seq<char>, declared: usize, actual: usize },
    Other(Seq<char>),
}

/// A diagnostic as plain values; the help is the suggested identifier.
pub struct DiagnosticView {
    pub start_offset: usize,
    pub end_offset: usize,
    pub message: MessageView,
    pub severity: Severity,
    pub help: Option<Seq<char>>,
}

impl View for DiagnosticMessage {
    type V = MessageView;

    open spec fn view(&self) -> MessageView {
        match self {
            DiagnosticMessage::UnknownTable { name } => MessageView::UnknownTable { name: name@ },
            DiagnosticMessage::UnknownColumn { column, table } => MessageView::UnknownColumn {
                column: column@,
                table: match table {
                    Some(t) => Some(t@),
                    None => None,
                },
            },
            DiagnosticMessage::UnknownFunction { name } => MessageView::UnknownFunction { name: name@ },
            DiagnosticMessage::FunctionArity { name, expected, got } => MessageView::FunctionArity {
                name: name@,
                expected: expected@,
                got: *got,
            },
            DiagnosticMessage::CteColumnCountMismatch { name, declared, actual } => MessageView::CteColumnCountMismatch {
                name: name@,
                declared: *declared,
                actual: *actual,
            },
            DiagnosticMessage::Other(msg) => MessageView::Other(msg@),
        }
    }
}

impl View for Diagnostic {
    type V = DiagnosticView;

    open spec fn view(&self) -> DiagnosticView {
        DiagnosticView {
            start_offset: self.start_offset,
            end_offset: self.end_offset,
            message: self.message@,
            severity: self.severity,
            help: match self.help {
                Some(Help::Suggestion(s)) => Some(s@),
                None => None,
            },
        }
    }
}

/// The views of a list of diagnostics.
pub open spec fn diagnostic_views(ds: Seq<Diagnostic>) -> Seq<DiagnosticView> {
    ds.map_values(|d: Diagnostic| d@)
}

} // verus!
