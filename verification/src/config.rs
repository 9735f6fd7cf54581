//! Analysis mode and per-category check configuration.

use vstd::prelude::*;

use crate::diagnostics::{DiagnosticMessage, MessageView, Severity};
use crate::text::str_equal;

verus! {

/// Whether statements are being analyzed (editing a file) or executed
/// (running sequentially in a session).
///
/// In `Document` mode, DDL from previous analysis passes is discarded — each
/// pass analyzes a fresh document.
///
/// In `Execute` mode, DDL accumulates across passes — a `CREATE TABLE` in
/// one pass makes the table visible to subsequent passes, matching the
/// behaviour of an interactive database session.
#[derive(Clone, Copy, Debug, PartialEq, Eq, Structural)]
pub enum AnalysisMode {
    /// Statements are being analyzed (e.g. editing a SQL file).
    /// DDL resets between passes.
    Document,
    /// Statements are being executed sequentially.
    /// DDL accumulates across passes.
    Execute,
}

impl Default for AnalysisMode {
    fn default() -> (r: Self)
        ensures
            r == AnalysisMode::Document,
    {
        AnalysisMode::Document
    }
}

/// Severity level for a check category.
///
/// Follows the Rust/Clippy convention: `allow` suppresses the diagnostic,
/// `warn` emits a warning, `deny` emits an error.
#[derive(Clone, Copy, Debug, PartialEq, Eq, Structural)]
pub enum CheckLevel {
    /// Suppress the diagnostic entirely.
    Allow,
    /// Emit a warning (does not cause a non-zero exit code).
    Warn,
    /// Emit an error (causes a non-zero exit code).
    Deny,
}

/// The text form of `{:?}` applied to a `str`: the string quoted, with
/// special characters escaped.
pub uninterp spec fn debug_quoted(s: Seq<char>) -> Seq<char>;

/// `format!("{s:?}")` on a `str`.
#[verifier::external_body]
fn debug_quote(s: &str) -> (r: String)
    ensures
        r@ == debug_quoted(s@),
{
    format!("{s:?}")
}

/// The error text for a level name that is not `allow`, `warn` or `deny`.
pub open spec fn invalid_level_message(s: Seq<char>) -> Seq<char> {
    "invalid check level: "@ + debug_quoted(s) + " (expected allow, warn, or deny)"@
}

/// The level named by `s`, if any.
pub open spec fn level_named(s: Seq<char>) -> Option<CheckLevel> {
    if s == "allow"@ {
        Some(CheckLevel::Allow)
    } else if s == "warn"@ {
        Some(CheckLevel::Warn)
    } else if s == "deny"@ {
        Some(CheckLevel::Deny)
    } else {
        None
    }
}

/// The severity a level emits diagnostics at (`None` for `Allow`).
pub open spec fn level_severity(l: CheckLevel) -> Option<Severity> {
    match l {
        CheckLevel::Allow => None,
        CheckLevel::Warn => Some(Severity::Warning),
        CheckLevel::Deny => Some(Severity::Error),
    }
}

impl CheckLevel {
    /// Parse from a string (`"allow"`, `"warn"`, `"deny"`).
    pub fn parse(s: &str) -> (r: Result<Self, String>)
        ensures
            level_named(s@) matches Some(l) ==> r == Ok::<CheckLevel, String>(l),
            level_named(s@) is None ==> (r matches Err(e) && e@ == invalid_level_message(s@)),
    {
        if str_equal(s, "allow") {
            Ok(CheckLevel::Allow)
        } else if str_equal(s, "warn") {
            Ok(CheckLevel::Warn)
        } else if str_equal(s, "deny") {
            Ok(CheckLevel::Deny)
        } else {
            let mut msg = String::from_str("invalid check level: ");
            let quoted = debug_quote(s);
            msg.append(quoted.as_str());
            msg.append(" (expected allow, warn, or deny)");
            Err(msg)
        }
    }

    /// Convert to [`Severity`] for diagnostic emission.
    /// Returns `None` for `Allow` (diagnostic should be suppressed).
    pub fn to_severity(self) -> (r: Option<Severity>)
        ensures
            r == level_severity(self),
    {
        match self {
            CheckLevel::Allow => None,
            CheckLevel::Warn => Some(Severity::Warning),
            CheckLevel::Deny => Some(Severity::Error),
        }
    }
}

/// Per-category check levels.
///
/// Each field controls whether and at what severity a category of diagnostic
/// is emitted. Uses the Rust/Clippy convention: `allow` (suppressed), `warn`,
/// `deny` (error).
///
/// | Name | What it controls | Default |
/// |------|-----------------|---------|
/// | `parse-errors` | Syntax errors from the parser | `deny` |
/// | `unknown-table` | Unresolved table/view references | `warn` |
/// | `unknown-column` | Unresolved column references | `warn` |
/// | `unknown-function` | Unresolved function names | `warn` |
/// | `function-arity` | Wrong number of function arguments | `warn` |
/// | `cte-columns` | CTE column count mismatches | `deny` |
///
/// The group name `schema` is a shorthand for `unknown-table`,
/// `unknown-column`, `unknown-function`, and `function-arity`.
#[derive(Clone, Copy, Debug)]
pub struct CheckConfig {
    pub(crate) parse_errors: CheckLevel,
    pub(crate) unknown_table: CheckLevel,
    pub(crate) unknown_column: CheckLevel,
    pub(crate) unknown_function: CheckLevel,
    pub(crate) function_arity: CheckLevel,
    pub(crate) cte_columns: CheckLevel,
}

/// The levels of a [`CheckConfig`], one per category.
#[derive(Clone, Copy)]
pub struct CheckLevels {
    /// Level for parse errors.
    pub parse_errors: CheckLevel,
    /// Level for unknown table references.
    pub unknown_table: CheckLevel,
    /// Level for unknown column references.
    pub unknown_column: CheckLevel,
    /// Level for unknown function references.
    pub unknown_function: CheckLevel,
    /// Level for function arity mismatches.
    pub function_arity: CheckLevel,
    /// Level for CTE column count mismatches.
    pub cte_columns: CheckLevel,
}

impl View for CheckConfig {
    type V = CheckLevels;

    closed spec fn view(&self) -> CheckLevels {
        CheckLevels {
            parse_errors: self.parse_errors,
            unknown_table: self.unknown_table,
            unknown_column: self.unknown_column,
            unknown_function: self.unknown_function,
            function_arity: self.function_arity,
            cte_columns: self.cte_columns,
        }
    }
}

/// The default levels: `deny` for parse errors and CTE column counts, `warn`
/// for the schema categories.
pub open spec fn default_levels() -> CheckLevels {
    CheckLevels {
        parse_errors: CheckLevel::Deny,
        unknown_table: CheckLevel::Warn,
        unknown_column: CheckLevel::Warn,
        unknown_function: CheckLevel::Warn,
        function_arity: CheckLevel::Warn,
        cte_columns: CheckLevel::Deny,
    }
}

impl Default for CheckConfig {
    fn default() -> (r: Self)
        ensures
            r@ == default_levels(),
    {
        CheckConfig {
            parse_errors: CheckLevel::Deny,
            unknown_table: CheckLevel::Warn,
            unknown_column: CheckLevel::Warn,
            unknown_function: CheckLevel::Warn,
            function_arity: CheckLevel::Warn,
            cte_columns: CheckLevel::Deny,
        }
    }
}

/// The configuration with every schema category (`unknown-table`,
/// `unknown-column`, `unknown-function`, `function-arity`) set to `level`.
pub open spec fn with_schema_spec(c: CheckLevels, level: CheckLevel) -> CheckLevels {
    CheckLevels {
        unknown_table: level,
        unknown_column: level,
        unknown_function: level,
        function_arity: level,
        ..c
    }
}

/// The configuration with every category set to `level`.
pub open spec fn with_all_spec(level: CheckLevel) -> CheckLevels {
    CheckLevels {
        parse_errors: level,
        unknown_table: level,
        unknown_column: level,
        unknown_function: level,
        function_arity: level,
        cte_columns: level,
    }
}

/// The configuration a category or group name selects, if the name is known.
pub open spec fn set_by_name_spec(c: CheckLevels, name: Seq<char>, level: CheckLevel) -> Option<CheckLevels> {
    if name == "parse-errors"@ {
        Some(CheckLevels { parse_errors: level, ..c })
    } else if name == "unknown-table"@ {
        Some(CheckLevels { unknown_table: level, ..c })
    } else if name == "unknown-column"@ {
        Some(CheckLevels { unknown_column: level, ..c })
    } else if name == "unknown-function"@ {
        Some(CheckLevels { unknown_function: level, ..c })
    } else if name == "function-arity"@ {
        Some(CheckLevels { function_arity: level, ..c })
    } else if name == "cte-columns"@ {
        Some(CheckLevels { cte_columns: level, ..c })
    } else if name == "schema"@ {
        Some(with_schema_spec(c, level))
    } else if name == "all"@ {
        Some(with_all_spec(level))
    } else {
        None
    }
}

/// The level configured for the category a message belongs to; parse errors
/// (`Other`) fall under `parse-errors`.
pub open spec fn level_for_spec(c: CheckLevels, m: DiagnosticMessage) -> CheckLevel {
    match m {
        DiagnosticMessage::UnknownTable { .. } => c.unknown_table,
        DiagnosticMessage::UnknownColumn { .. } => c.unknown_column,
        DiagnosticMessage::UnknownFunction { .. } => c.unknown_function,
        DiagnosticMessage::FunctionArity { .. } => c.function_arity,
        DiagnosticMessage::CteColumnCountMismatch { .. } => c.cte_columns,
        DiagnosticMessage::Other(_) => c.parse_errors,
    }
}

/// The level configured for the category of a message given as plain values.
pub open spec fn message_level(c: CheckLevels, m: MessageView) -> CheckLevel {
    match m {
        MessageView::UnknownTable { .. } => c.unknown_table,
        MessageView::UnknownColumn { .. } => c.unknown_column,
        MessageView::UnknownFunction { .. } => c.unknown_function,
        MessageView::FunctionArity { .. } => c.function_arity,
        MessageView::CteColumnCountMismatch { .. } => c.cte_columns,
        MessageView::Other(_) => c.parse_errors,
    }
}

impl CheckConfig {
    /// Level for parse errors.
    pub fn parse_errors(&self) -> (r: CheckLevel)
        ensures
            r == self@.parse_errors,
    {
        self.parse_errors
    }

    /// Level for unknown table references.
    pub fn unknown_table(&self) -> (r: CheckLevel)
        ensures
            r == self@.unknown_table,
    {
        self.unknown_table
    }

    /// Level for unknown column references.
    pub fn unknown_column(&self) -> (r: CheckLevel)
        ensures
            r == self@.unknown_column,
    {
        self.unknown_column
    }

    /// Level for unknown function references.
    pub fn unknown_function(&self) -> (r: CheckLevel)
        ensures
            r == self@.unknown_function,
    {
        self.unknown_function
    }

    /// Level for function arity mismatches.
    pub fn function_arity(&self) -> (r: CheckLevel)
        ensures
            r == self@.function_arity,
    {
        self.function_arity
    }

    /// Level for CTE column count mismatches.
    pub fn cte_columns(&self) -> (r: CheckLevel)
        ensures
            r == self@.cte_columns,
    {
        self.cte_columns
    }

    /// Set the level for parse errors.
    pub fn with_parse_errors(self, level: CheckLevel) -> (r: Self)
        ensures
            r@ == (CheckLevels { parse_errors: level, ..self@ }),
    {
        CheckConfig { parse_errors: level, ..self }
    }

    /// Set the level for unknown table references.
    pub fn with_unknown_table(self, level: CheckLevel) -> (r: Self)
        ensures
            r@ == (CheckLevels { unknown_table: level, ..self@ }),
    {
        CheckConfig { unknown_table: level, ..self }
    }

    /// Set the level for unknown column references.
    pub fn with_unknown_column(self, level: CheckLevel) -> (r: Self)
        ensures
            r@ == (CheckLevels { unknown_column: level, ..self@ }),
    {
        CheckConfig { unknown_column: level, ..self }
    }

    /// Set the level for unknown function references.
    pub fn with_unknown_function(self, level: CheckLevel) -> (r: Self)
        ensures
            r@ == (CheckLevels { unknown_function: level, ..self@ }),
    {
        CheckConfig { unknown_function: level, ..self }
    }

    /// Set the level for function arity mismatches.
    pub fn with_function_arity(self, level: CheckLevel) -> (r: Self)
        ensures
            r@ == (CheckLevels { function_arity: level, ..self@ }),
    {
        CheckConfig { function_arity: level, ..self }
    }

    /// Set the level for CTE column count mismatches.
    pub fn with_cte_columns(self, level: CheckLevel) -> (r: Self)
        ensures
            r@ == (CheckLevels { cte_columns: level, ..self@ }),
    {
        CheckConfig { cte_columns: level, ..self }
    }

    /// Set all schema checks (`unknown-table`, `unknown-column`,
    /// `unknown-function`, `function-arity`).
    pub fn with_schema(self, level: CheckLevel) -> (r: Self)
        ensures
            r@ == with_schema_spec(self@, level),
    {
        CheckConfig {
            unknown_table: level,
            unknown_column: level,
            unknown_function: level,
            function_arity: level,
            ..self
        }
    }

    /// Set all checks.
    pub fn with_all(self, level: CheckLevel) -> (r: Self)
        ensures
            r@ == with_all_spec(level),
    {
        CheckConfig {
            parse_errors: level,
            unknown_table: level,
            unknown_column: level,
            unknown_function: level,
            function_arity: level,
            cte_columns: level,
        }
    }

    /// All check category names (for CLI help and error messages).
    pub fn category_names() -> (r: Vec<&'static str>)
        ensures
            r@.len() == 6,
            r@[0]@ == "parse-errors"@,
            r@[1]@ == "unknown-table"@,
            r@[2]@ == "unknown-column"@,
            r@[3]@ == "unknown-function"@,
            r@[4]@ == "function-arity"@,
            r@[5]@ == "cte-columns"@,
    {
        let mut v: Vec<&'static str> = Vec::new();
        v.push("parse-errors");
        v.push("unknown-table");
        v.push("unknown-column");
        v.push("unknown-function");
        v.push("function-arity");
        v.push("cte-columns");
        v
    }

    /// Group names that expand to multiple categories.
    pub fn group_names() -> (r: Vec<&'static str>)
        ensures
            r@.len() == 2,
            r@[0]@ == "schema"@,
            r@[1]@ == "all"@,
    {
        let mut v: Vec<&'static str> = Vec::new();
        v.push("schema");
        v.push("all");
        v
    }

    /// Set a category by name. For CLI and config file dispatch.
    /// Returns `Err` if the name is unknown.
    pub fn set_by_name(self, name: &str, level: CheckLevel) -> (r: Result<Self, String>)
        ensures
            set_by_name_spec(self@, name@, level) matches Some(c) ==> (r matches Ok(rc) && rc@ == c),
            set_by_name_spec(self@, name@, level) is None ==> (r matches Err(e) && e@ == "unknown check category: "@ + name@),
    {
        if str_equal(name, "parse-errors") {
            Ok(self.with_parse_errors(level))
        } else if str_equal(name, "unknown-table") {
            Ok(self.with_unknown_table(level))
        } else if str_equal(name, "unknown-column") {
            Ok(self.with_unknown_column(level))
        } else if str_equal(name, "unknown-function") {
            Ok(self.with_unknown_function(level))
        } else if str_equal(name, "function-arity") {
            Ok(self.with_function_arity(level))
        } else if str_equal(name, "cte-columns") {
            Ok(self.with_cte_columns(level))
        } else if str_equal(name, "schema") {
            Ok(self.with_schema(level))
        } else if str_equal(name, "all") {
            Ok(self.with_all(level))
        } else {
            let mut msg = String::from_str("unknown check category: ");
            msg.append(name);
            Err(msg)
        }
    }

    /// Get the check level for a diagnostic message's category.
    pub fn level_for(self, message: &DiagnosticMessage) -> (r: CheckLevel)
        ensures
            r == level_for_spec(self@, *message),
            r == message_level(self@, message@),
    {
        match message {
            DiagnosticMessage::UnknownTable { .. } => self.unknown_table,
            DiagnosticMessage::UnknownColumn { .. } => self.unknown_column,
            DiagnosticMessage::UnknownFunction { .. } => self.unknown_function,
            DiagnosticMessage::FunctionArity { .. } => self.function_arity,
            DiagnosticMessage::CteColumnCountMismatch { .. } => self.cte_columns,
            DiagnosticMessage::Other(_) => self.parse_errors,
        }
    }
}

/// Configuration for semantic validation.
///
/// - **`checks`** — per-category severity levels (`allow`/`warn`/`deny`).
///   See [`CheckConfig`].
/// - **`suggestion_threshold`** (`2` by default) — maximum Levenshtein
///   distance for "did you mean?" suggestions. Set to `0` to allow only
///   suggestions that differ in letter case.
#[derive(Clone, Copy, Debug)]
pub struct ValidationConfig {
    pub(crate) suggestion_threshold: usize,
    pub(crate) checks: CheckConfig,
}

/// The settings of a [`ValidationConfig`].
#[derive(Clone, Copy)]
pub struct ValidationSettings {
    /// Maximum Levenshtein distance for suggestions.
    pub suggestion_threshold: usize,
    /// Per-category check levels.
    pub checks: CheckLevels,
}

impl View for ValidationConfig {
    type V = ValidationSettings;

    closed spec fn view(&self) -> ValidationSettings {
        ValidationSettings { suggestion_threshold: self.suggestion_threshold, checks: self.checks@ }
    }
}

impl Default for ValidationConfig {
    fn default() -> (r: Self)
        ensures
            r@ == (ValidationSettings { suggestion_threshold: 2, checks: default_levels() }),
    {
        ValidationConfig { suggestion_threshold: 2, checks: CheckConfig::default() }
    }
}

impl ValidationConfig {
    /// Maximum Levenshtein distance for "did you mean?" suggestions.
    pub fn suggestion_threshold(&self) -> (r: usize)
        ensures
            r == self@.suggestion_threshold,
    {
        self.suggestion_threshold
    }

    /// Per-category check levels.
    pub fn checks(&self) -> (r: CheckConfig)
        ensures
            r@ == self@.checks,
    {
        self.checks
    }

    /// Set the maximum Levenshtein distance for suggestions.
    pub fn with_suggestion_threshold(self, threshold: usize) -> (r: Self)
        ensures
            r@ == (ValidationSettings { suggestion_threshold: threshold, ..self@ }),
    {
        ValidationConfig { suggestion_threshold: threshold, ..self }
    }

    /// Set per-category check config.
    pub fn with_checks(self, checks: CheckConfig) -> (r: Self)
        ensures
            r@ == (ValidationSettings { checks: checks@, ..self@ }),
    {
        ValidationConfig { checks, ..self }
    }

    /// Set all schema checks to `deny` (errors).
    ///
    /// Equivalent to setting `unknown-table`, `unknown-column`,
    /// `unknown-function`, and `function-arity` to [`CheckLevel::Deny`].
    pub fn with_strict_schema(self) -> (r: Self)
        ensures
            r@ == (ValidationSettings { checks: with_schema_spec(self@.checks, CheckLevel::Deny), ..self@ }),
    {
        ValidationConfig { checks: self.checks.with_schema(CheckLevel::Deny), ..self }
    }
}


// ── Laws ─────────────────────────────────────────────────────────────────────

/// The category name that governs a message.
pub open spec fn category_of(m: DiagnosticMessage) -> Seq<char> {
    match m {
        DiagnosticMessage::UnknownTable { .. } => "unknown-table"@,
        DiagnosticMessage::UnknownColumn { .. } => "unknown-column"@,
        DiagnosticMessage::UnknownFunction { .. } => "unknown-function"@,
        DiagnosticMessage::FunctionArity { .. } => "function-arity"@,
        DiagnosticMessage::CteColumnCountMismatch { .. } => "cte-columns"@,
        DiagnosticMessage::Other(_) => "parse-errors"@,
    }
}

/// The message belongs to one of the schema categories.
pub open spec fn is_schema_message(m: DiagnosticMessage) -> bool {
    !(m is Other) && !(m is CteColumnCountMismatch)
}

/// Setting a category by name changes the level of exactly the messages of
/// that category.
pub proof fn law_set_by_name_targets_its_category(c: CheckLevels, target: DiagnosticMessage, m: DiagnosticMessage, level: CheckLevel)
    ensures
        set_by_name_spec(c, category_of(target), level) is Some,
        level_for_spec(set_by_name_spec(c, category_of(target), level)->0, m) == if category_of(m) == category_of(target) {
            level
        } else {
            level_for_spec(c, m)
        },
{
    lemma_category_names_distinct();
}

/// The `schema` group sets the level of every schema message and leaves
/// parse errors alone; `all` sets every message.
pub proof fn law_groups_cover_their_categories(c: CheckLevels, m: DiagnosticMessage, level: CheckLevel)
    ensures
        set_by_name_spec(c, "schema"@, level) == Some(with_schema_spec(c, level)),
        set_by_name_spec(c, "all"@, level) == Some(with_all_spec(level)),
        level_for_spec(with_schema_spec(c, level), m) == if is_schema_message(m) {
            level
        } else {
            level_for_spec(c, m)
        },
        level_for_spec(with_all_spec(level), m) == level,
{
    lemma_category_names_distinct();
}

/// Every listed category and group name is accepted by `set_by_name`.
pub proof fn law_listed_names_are_accepted(c: CheckLevels, level: CheckLevel)
    ensures
        set_by_name_spec(c, "parse-errors"@, level) is Some,
        set_by_name_spec(c, "unknown-table"@, level) is Some,
        set_by_name_spec(c, "unknown-column"@, level) is Some,
        set_by_name_spec(c, "unknown-function"@, level) is Some,
        set_by_name_spec(c, "function-arity"@, level) is Some,
        set_by_name_spec(c, "cte-columns"@, level) is Some,
        set_by_name_spec(c, "schema"@, level) is Some,
        set_by_name_spec(c, "all"@, level) is Some,
{
}

/// Every level name parses back to its level, and the level's severity is
/// `None` for `allow`, a warning for `warn` and an error for `deny`.
pub proof fn law_level_names_round_trip()
    ensures
        level_named("allow"@) == Some(CheckLevel::Allow),
        level_named("warn"@) == Some(CheckLevel::Warn),
        level_named("deny"@) == Some(CheckLevel::Deny),
        level_severity(CheckLevel::Allow) is None,
        level_severity(CheckLevel::Warn) == Some(Severity::Warning),
        level_severity(CheckLevel::Deny) == Some(Severity::Error),
{
    reveal_strlit("allow");
    reveal_strlit("warn");
    reveal_strlit("deny");
    assert("allow"@.len() == 5);
    assert("warn"@.len() == 4);
    assert("deny"@.len() == 4);
    assert("warn"@[0] != "deny"@[0]);
}


/// The category and group names are pairwise different.
proof fn lemma_category_names_distinct()
    ensures
        "parse-errors"@ != "unknown-table"@,
        "parse-errors"@ != "unknown-column"@,
        "parse-errors"@ != "unknown-function"@,
        "parse-errors"@ != "function-arity"@,
        "parse-errors"@ != "cte-columns"@,
        "parse-errors"@ != "schema"@,
        "parse-errors"@ != "all"@,
        "unknown-table"@ != "unknown-column"@,
        "unknown-table"@ != "unknown-function"@,
        "unknown-table"@ != "function-arity"@,
        "unknown-table"@ != "cte-columns"@,
        "unknown-table"@ != "schema"@,
        "unknown-table"@ != "all"@,
        "unknown-column"@ != "unknown-function"@,
        "unknown-column"@ != "function-arity"@,
        "unknown-column"@ != "cte-columns"@,
        "unknown-column"@ != "schema"@,
        "unknown-column"@ != "all"@,
        "unknown-function"@ != "function-arity"@,
        "unknown-function"@ != "cte-columns"@,
        "unknown-function"@ != "schema"@,
        "unknown-function"@ != "all"@,
        "function-arity"@ != "cte-columns"@,
        "function-arity"@ != "schema"@,
        "function-arity"@ != "all"@,
        "cte-columns"@ != "schema"@,
        "cte-columns"@ != "all"@,
        "schema"@ != "all"@,
{
    reveal_strlit("parse-errors");
    reveal_strlit("unknown-table");
    reveal_strlit("unknown-column");
    reveal_strlit("unknown-function");
    reveal_strlit("function-arity");
    reveal_strlit("cte-columns");
    reveal_strlit("schema");
    reveal_strlit("all");
    assert("parse-errors"@.len() == 12);
    assert("unknown-table"@.len() == 13);
    assert("unknown-column"@.len() == 14);
    assert("unknown-function"@.len() == 16);
    assert("function-arity"@.len() == 14);
    assert("cte-columns"@.len() == 11);
    assert("schema"@.len() == 6);
    assert("all"@.len() == 3);
    assert("unknown-column"@[8] != "function-arity"@[8]);
}

} // verus!
