//! A schema description as plain values: the tables, views and functions a
//! caller declares (for instance from a JSON document).

use vstd::prelude::*;

use crate::text::string_views;

verus! {

/// A declared table or view.
pub struct TableInput {
    /// Its name.
    pub name: String,
    /// Its column names; empty when unknown.
    pub columns: Vec<String>,
}

/// A declared function.
pub struct FunctionInput {
    /// Its name.
    pub name: String,
    /// Its argument count; `None` accepts any count.
    pub args: Option<usize>,
}

/// A declared schema.
pub struct SchemaInput {
    /// Tables.
    pub tables: Vec<TableInput>,
    /// Views.
    pub views: Vec<TableInput>,
    /// Functions.
    pub functions: Vec<FunctionInput>,
}

/// A declared table or view as plain values.
pub struct TableInputView {
    /// Its name.
    pub name: Seq<char>,
    /// Its column names.
    pub columns: Seq<Seq<char>>,
}

/// A declared function as plain values.
pub struct FunctionInputView {
    /// Its name.
    pub name: Seq<char>,
    /// Its argument count.
    pub args: Option<usize>,
}

impl View for TableInput {
    type V = TableInputView;

    open spec fn view(&self) -> TableInputView {
        TableInputView { name: self.name@, columns: string_views(self.columns@) }
    }
}

impl View for FunctionInput {
    type V = FunctionInputView;

    open spec fn view(&self) -> FunctionInputView {
        FunctionInputView { name: self.name@, args: self.args }
    }
}

/// The views of declared tables.
pub open spec fn table_views(ts: Seq<TableInput>) -> Seq<TableInputView> {
    ts.map_values(|t: TableInput| t@)
}

/// The views of declared functions.
pub open spec fn function_input_views(fs: Seq<FunctionInput>) -> Seq<FunctionInputView> {
    fs.map_values(|f: FunctionInput| f@)
}

} // verus!
