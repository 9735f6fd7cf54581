//! The built-in function catalog a dialect contributes to the lowest
//! catalog layer.

use vstd::prelude::*;

use crate::text::string_views;

verus! {

/// How a built-in function is used.
#[derive(Debug, Clone, Copy, PartialEq, Eq, Structural)]
pub enum DialectFunctionCategory {
    /// A scalar function.
    Scalar,
    /// An aggregate function.
    Aggregate,
    /// A window function.
    Window,
    /// A table-valued function (usable in FROM).
    TableValued,
}

/// A built-in function available in a dialect.
///
/// `arities` lists the accepted argument counts: a non-negative entry is an
/// exact count, `-1` accepts any count, and `-n-1` accepts at least `n`.
/// An empty list accepts any count.
#[derive(Debug)]
pub struct BuiltinFunction {
    /// The function name.
    pub name: String,
    /// How the function is used.
    pub category: DialectFunctionCategory,
    /// Encoded accepted argument counts.
    pub arities: Vec<i16>,
}

/// A copy of a list of arity codes.
fn copy_codes(v: &Vec<i16>) -> (r: Vec<i16>)
    ensures
        r@ == v@,
{
    let mut r: Vec<i16> = Vec::new();
    let mut i: usize = 0;
    while i < v.len()
        invariant
            0 <= i <= v@.len(),
            r@ == v@.take(i as int),
        decreases v@.len() - i,
    {
        r.push(v[i]);
        i += 1;
        assert(r@ =~= v@.take(i as int));
    }
    assert(v@.take(i as int) =~= v@);
    r
}

impl BuiltinFunction {
    /// An independent copy.
    pub fn duplicate(&self) -> (r: Self)
        ensures
            r.name@ == self.name@,
            r.category == self.category,
            r.arities@ == self.arities@,
    {
        BuiltinFunction { name: self.name.clone(), category: self.category, arities: copy_codes(&self.arities) }
    }
}

/// A dialect, as far as the catalog is concerned: the built-in functions it
/// makes available under its configuration, and the functions its
/// extensions add.
#[derive(Debug)]
pub struct Dialect {
    functions: Vec<BuiltinFunction>,
    extensions: Vec<BuiltinFunction>,
}

impl Dialect {
    /// A dialect offering exactly `functions` (already filtered by version
    /// and compile-time flags) and no extension functions.
    pub fn new(functions: Vec<BuiltinFunction>) -> (r: Self)
        ensures
            r.functions() == functions@,
            r.extensions() == Seq::<BuiltinFunction>::empty(),
    {
        Dialect { functions, extensions: Vec::new() }
    }

    /// The same dialect with `extensions` as its extension functions.
    pub fn with_extensions(self, extensions: Vec<BuiltinFunction>) -> (r: Self)
        ensures
            r.functions() == self.functions(),
            r.extensions() == extensions@,
    {
        Dialect { functions: self.functions, extensions }
    }

    /// The dialect's built-in functions.
    pub closed spec fn functions(&self) -> Seq<BuiltinFunction> {
        self.functions@
    }

    /// The functions the dialect's extensions add.
    pub closed spec fn extensions(&self) -> Seq<BuiltinFunction> {
        self.extensions@
    }

    /// The functions the dialect's extensions add.
    pub fn extension_functions(&self) -> (r: &Vec<BuiltinFunction>)
        ensures
            r@ == self.extensions(),
    {
        &self.extensions
    }

    /// The dialect's built-in functions.
    pub fn builtin_functions(&self) -> (r: &Vec<BuiltinFunction>)
        ensures
            r@ == self.functions(),
    {
        &self.functions
    }
}

} // verus!
