//! The function catalog of a dialect: built-in and extension functions with
//! encoded arities, plus functions defined by the session or the document.

use vstd::prelude::*;
use vstd::std_specs::iter::IteratorSpec;

use crate::catalog::FunctionCheckResult;
use crate::dialect::{BuiltinFunction, Dialect, DialectFunctionCategory};
use crate::text::{eq_ignore_ascii_case, insert_sorted_unique, same_ignoring_case, strictly_increasing};

verus! {

/// A user-defined or database function (from DDL, JSON configuration or the
/// runtime).
#[derive(Debug)]
pub struct FunctionDef {
    /// Function name.
    pub name: String,
    /// `None` means variadic (any number of arguments).
    pub args: Option<usize>,
}

/// A user-defined function as plain values.
pub struct FunctionDefView {
    /// Function name.
    pub name: Seq<char>,
    /// Accepted argument count; `None` accepts any count.
    pub args: Option<usize>,
}

impl View for FunctionDef {
    type V = FunctionDefView;

    open spec fn view(&self) -> FunctionDefView {
        FunctionDefView { name: self.name@, args: self.args }
    }
}

/// A function with encoded arities as plain values.
pub struct CodedFunction {
    /// Function name.
    pub name: Seq<char>,
    /// How the function is used.
    pub category: DialectFunctionCategory,
    /// Encoded accepted argument counts.
    pub arities: Seq<i16>,
}

/// Information about a resolved function.
pub struct FunctionLookup<'a> {
    /// Function name.
    pub name: &'a str,
    /// Function category (scalar/aggregate/window/table-valued).
    pub category: DialectFunctionCategory,
    /// All accepted fixed arities. Empty + `is_variadic` means any arity.
    pub fixed_arities: Vec<usize>,
    /// Whether this function accepts arbitrary argument counts.
    pub is_variadic: bool,
}

/// A resolved function as plain values.
pub struct FunctionLookupView {
    /// Function name.
    pub name: Seq<char>,
    /// Function category.
    pub category: DialectFunctionCategory,
    /// Accepted fixed arities, increasing.
    pub fixed_arities: Seq<usize>,
    /// Whether any argument count is accepted.
    pub is_variadic: bool,
}

impl<'a> View for FunctionLookup<'a> {
    type V = FunctionLookupView;

    open spec fn view(&self) -> FunctionLookupView {
        FunctionLookupView {
            name: self.name@,
            category: self.category,
            fixed_arities: self.fixed_arities@,
            is_variadic: self.is_variadic,
        }
    }
}

// ── Arity codes ─────────────────────────────────────────────────────────────

/// Whether one arity code accepts `n` arguments: `-1` any count, `-m-1` at
/// least `m`, a non-negative code exactly that count.
pub open spec fn code_accepts(a: i16, n: nat) -> bool {
    if a == -1 {
        true
    } else if a < -1 {
        n >= -a - 1
    } else {
        n == a
    }
}

/// Whether a list of arity codes accepts `n` arguments (an empty list
/// accepts any count).
pub open spec fn codes_accept(codes: Seq<i16>, n: nat) -> bool {
    codes.len() == 0 || exists|i: int| 0 <= i < codes.len() && code_accepts(#[trigger] codes[i], n)
}

/// Whether a list of arity codes has a variadic form (empty, or a negative
/// code).
pub open spec fn codes_variadic(codes: Seq<i16>) -> bool {
    codes.len() == 0 || exists|i: int| 0 <= i < codes.len() && #[trigger] codes[i] < 0
}

/// The fixed (non-negative) codes, in order.
pub open spec fn fixed_codes(codes: Seq<i16>) -> Seq<usize>
    decreases codes.len(),
{
    if codes.len() == 0 {
        Seq::empty()
    } else if codes.last() >= 0 {
        fixed_codes(codes.drop_last()).push(codes.last() as usize)
    } else {
        fixed_codes(codes.drop_last())
    }
}

/// `n` is one of the fixed codes.
pub open spec fn has_fixed_code(codes: Seq<i16>, n: usize) -> bool {
    exists|k: int| 0 <= k < codes.len() && codes[k] >= 0 && #[trigger] codes[k] as usize == n
}

proof fn lemma_fixed_codes_contains(codes: Seq<i16>)
    ensures
        forall|n: usize|
            #![trigger fixed_codes(codes).contains(n)]
            #![trigger has_fixed_code(codes, n)]
            fixed_codes(codes).contains(n) <==> has_fixed_code(codes, n),
    decreases codes.len(),
{
    if codes.len() > 0 {
        let d = codes.drop_last();
        lemma_fixed_codes_contains(d);
        assert forall|n: usize| fixed_codes(codes).contains(n) <==> has_fixed_code(codes, n) by {
            if has_fixed_code(codes, n) {
                let k = choose|k: int| 0 <= k < codes.len() && codes[k] >= 0 && #[trigger] codes[k] as usize == n;
                if k < codes.len() - 1 {
                    assert(d[k] == codes[k]);
                    assert(has_fixed_code(d, n));
                    assert(fixed_codes(d).contains(n));
                    if codes.last() >= 0 {
                        let j = choose|j: int| 0 <= j < fixed_codes(d).len() && fixed_codes(d)[j] == n;
                        assert(fixed_codes(codes)[j] == n);
                    }
                } else {
                    assert(fixed_codes(codes).last() == n);
                }
            }
            if fixed_codes(codes).contains(n) {
                let j = choose|j: int| 0 <= j < fixed_codes(codes).len() && fixed_codes(codes)[j] == n;
                if j < fixed_codes(d).len() {
                    assert(fixed_codes(codes)[j] == fixed_codes(d)[j]);
                    assert(fixed_codes(d)[j] == n);
                    assert(fixed_codes(d).contains(n));
                    assert(has_fixed_code(d, n));
                    let k = choose|k: int| 0 <= k < d.len() && d[k] >= 0 && #[trigger] d[k] as usize == n;
                    assert(codes[k] == d[k]);
                } else {
                    assert(codes[codes.len() - 1] as usize == n);
                }
            }
        }
    }
}

/// Whether the encoded `arities` accept `arg_count` arguments.
pub fn matches_arity(arities: &[i16], arg_count: usize) -> (r: bool)
    ensures
        r == codes_accept(arities@, arg_count as nat),
{
    if arities.len() == 0 {
        return true;
    }
    let mut i: usize = 0;
    while i < arities.len()
        invariant
            0 <= i <= arities@.len(),
            forall|k: int| 0 <= k < i ==> !code_accepts(#[trigger] arities@[k], arg_count as nat),
        decreases arities@.len() - i,
    {
        let a = arities[i];
        let ok = if a < 0 {
            if a == -1 {
                true
            } else {
                let m: i32 = -(a as i32) - 1;
                arg_count >= m as usize
            }
        } else {
            arg_count == a as usize
        };
        if ok {
            assert(code_accepts(arities@[i as int], arg_count as nat));
            return true;
        }
        i += 1;
    }
    false
}

/// Append the fixed arities of `arities` to `expected`, and record in
/// `is_variadic` whether it has a variadic form.
pub fn collect_arities(arities: &[i16], expected: &mut Vec<usize>, is_variadic: &mut bool)
    ensures
        final(expected)@ == old(expected)@ + fixed_codes(arities@),
        *final(is_variadic) == (*old(is_variadic) || codes_variadic(arities@)),
{
    if arities.len() == 0 {
        *is_variadic = true;
        assert(fixed_codes(arities@) =~= Seq::<usize>::empty());
        assert(expected@ =~= old(expected)@ + fixed_codes(arities@));
        return;
    }
    let mut i: usize = 0;
    assert(arities@.take(0) =~= Seq::<i16>::empty());
    assert(expected@ =~= old(expected)@ + fixed_codes(arities@.take(0)));
    while i < arities.len()
        invariant
            0 <= i <= arities@.len(),
            arities@.len() > 0,
            expected@ == old(expected)@ + fixed_codes(arities@.take(i as int)),
            *is_variadic == (*old(is_variadic) || exists|k: int| 0 <= k < i && #[trigger] arities@[k] < 0),
        decreases arities@.len() - i,
    {
        let a = arities[i];
        proof {
            assert(arities@.take(i + 1).drop_last() =~= arities@.take(i as int));
            assert(arities@.take(i + 1).last() == a);
        }
        if a < 0 {
            *is_variadic = true;
        } else {
            expected.push(a as usize);
        }
        assert(expected@ =~= old(expected)@ + fixed_codes(arities@.take(i + 1)));
        i += 1;
    }
    assert(arities@.take(i as int) =~= arities@);
}

/// The values of `v`, increasing and without repeats.
fn sorted_unique(v: &Vec<usize>) -> (r: Vec<usize>)
    ensures
        strictly_increasing(r@),
        forall|n: usize| r@.contains(n) <==> v@.contains(n),
{
    let mut out: Vec<usize> = Vec::new();
    let mut i: usize = 0;
    while i < v.len()
        invariant
            0 <= i <= v@.len(),
            strictly_increasing(out@),
            forall|n: usize| out@.contains(n) <==> v@.take(i as int).contains(n),
        decreases v@.len() - i,
    {
        insert_sorted_unique(&mut out, v[i]);
        proof {
            assert forall|n: usize| out@.contains(n) <==> v@.take(i + 1).contains(n) by {
                assert(v@.take(i + 1) =~= v@.take(i as int).push(v@[i as int]));
                if v@.take(i as int).contains(n) {
                    let k = choose|k: int| 0 <= k < i && v@.take(i as int)[k] == n;
                    assert(v@.take(i + 1)[k] == n);
                }
                if n == v@[i as int] {
                    assert(v@.take(i + 1)[i as int] == n);
                }
            }
        }
        i += 1;
    }
    assert(v@.take(i as int) =~= v@);
    out
}


// ── The catalog ─────────────────────────────────────────────────────────────

/// A function with its encoded arities, owned.
struct OwnedFunctionInfo {
    name: String,
    arities: Vec<i16>,
    category: DialectFunctionCategory,
}

impl View for OwnedFunctionInfo {
    type V = CodedFunction;

    closed spec fn view(&self) -> CodedFunction {
        CodedFunction { name: self.name@, category: self.category, arities: self.arities@ }
    }
}

/// The functions of a catalog as plain values.
pub struct FunctionCatalogView {
    /// Built-in functions of the dialect.
    pub builtins: Seq<CodedFunction>,
    /// Functions of the dialect's extensions.
    pub extensions: Seq<CodedFunction>,
    /// Functions defined by the session or the document.
    pub session: Seq<FunctionDefView>,
}

/// The coded form of a dialect's functions.
pub open spec fn coded_functions(fs: Seq<BuiltinFunction>) -> Seq<CodedFunction> {
    fs.map_values(|f: BuiltinFunction| CodedFunction { name: f.name@, category: f.category, arities: f.arities@ })
}

/// The views of a list of function definitions.
pub open spec fn function_def_views(fs: Seq<FunctionDef>) -> Seq<FunctionDefView> {
    fs.map_values(|f: FunctionDef| f@)
}

/// Some function in `list` is named `name` (ignoring case).
pub open spec fn named_in(list: Seq<CodedFunction>, name: Seq<char>) -> bool {
    exists|i: int| 0 <= i < list.len() && same_ignoring_case(#[trigger] list[i].name, name)
}

/// Some function in `list` named `name` accepts `n` arguments.
pub open spec fn accepting_in(list: Seq<CodedFunction>, name: Seq<char>, n: nat) -> bool {
    exists|i: int| 0 <= i < list.len() && same_ignoring_case(#[trigger] list[i].name, name) && codes_accept(list[i].arities, n)
}

/// Some function in `list` named `name` has the fixed arity `m`.
pub open spec fn fixed_in(list: Seq<CodedFunction>, name: Seq<char>, m: usize) -> bool {
    exists|i: int| 0 <= i < list.len() && same_ignoring_case(#[trigger] list[i].name, name) && has_fixed_code(list[i].arities, m)
}

/// Some session function is named `name`.
pub open spec fn session_named(ss: Seq<FunctionDefView>, name: Seq<char>) -> bool {
    exists|j: int| 0 <= j < ss.len() && same_ignoring_case(#[trigger] ss[j].name, name)
}

/// Some session function named `name` accepts `n` arguments.
pub open spec fn session_accepting(ss: Seq<FunctionDefView>, name: Seq<char>, n: nat) -> bool {
    exists|j: int|
        0 <= j < ss.len() && same_ignoring_case(#[trigger] ss[j].name, name) && (ss[j].args is None || ss[j].args
            == Some(n as usize))
}

/// Some session function named `name` takes exactly `m` arguments.
pub open spec fn session_fixed(ss: Seq<FunctionDefView>, name: Seq<char>, m: usize) -> bool {
    exists|j: int| 0 <= j < ss.len() && same_ignoring_case(#[trigger] ss[j].name, name) && ss[j].args == Some(m)
}

/// The outcome of calling `name` with `n` arguments: unknown when no
/// function has the name; accepted when some function with the name
/// accepts the count or is variadic; otherwise the fixed arities of all
/// functions with the name.
pub open spec fn call_check_spec(v: FunctionCatalogView, name: Seq<char>, n: nat, r: FunctionCheckResult) -> bool {
    if !(named_in(v.builtins, name) || named_in(v.extensions, name) || session_named(v.session, name)) {
        r is Unknown
    } else if accepting_in(v.builtins, name, n) || accepting_in(v.extensions, name, n) || session_accepting(v.session, name, n) {
        r is Accepted
    } else {
        r matches FunctionCheckResult::WrongArity { expected } && strictly_increasing(expected@) && forall|m: usize|
            #[trigger] expected@.contains(m) <==> (fixed_in(v.builtins, name, m) || fixed_in(v.extensions, name, m)
                || session_fixed(v.session, name, m))
    }
}

/// The first function in `list` named `name`.
pub open spec fn first_coded(list: Seq<CodedFunction>, name: Seq<char>) -> Option<CodedFunction>
    decreases list.len(),
{
    if list.len() == 0 {
        None
    } else if same_ignoring_case(list[0].name, name) {
        Some(list[0])
    } else {
        first_coded(list.drop_first(), name)
    }
}

/// The first session function named `name`.
pub open spec fn first_session(ss: Seq<FunctionDefView>, name: Seq<char>) -> Option<FunctionDefView>
    decreases ss.len(),
{
    if ss.len() == 0 {
        None
    } else if same_ignoring_case(ss[0].name, name) {
        Some(ss[0])
    } else {
        first_session(ss.drop_first(), name)
    }
}

/// `l` describes the coded function `c`.
pub open spec fn describes_coded(l: FunctionLookupView, c: CodedFunction) -> bool {
    &&& l.name == c.name
    &&& l.category == c.category
    &&& strictly_increasing(l.fixed_arities)
    &&& forall|m: usize| #[trigger] l.fixed_arities.contains(m) <==> has_fixed_code(c.arities, m)
    &&& l.is_variadic == codes_variadic(c.arities)
}

/// `l` describes the session function `d`.
pub open spec fn describes_session(l: FunctionLookupView, d: FunctionDefView) -> bool {
    &&& l.name == d.name
    &&& l.category == DialectFunctionCategory::Scalar
    &&& l.fixed_arities == match d.args {
        Some(m) => seq![m],
        None => Seq::<usize>::empty(),
    }
    &&& l.is_variadic == d.args is None
}

/// The lookup of `name`: the first built-in, else the first extension
/// function, else the first session function with the name.
pub open spec fn lookup_spec(v: FunctionCatalogView, name: Seq<char>, r: Option<FunctionLookupView>) -> bool {
    match first_coded(v.builtins, name) {
        Some(c) => r matches Some(l) && describes_coded(l, c),
        None => match first_coded(v.extensions, name) {
            Some(c) => r matches Some(l) && describes_coded(l, c),
            None => match first_session(v.session, name) {
                Some(d) => r matches Some(l) && describes_session(l, d),
                None => r is None,
            },
        },
    }
}

/// All functions as (name, category) pairs: built-ins, extensions, then
/// session functions (scalar).
pub open spec fn all_entries(v: FunctionCatalogView) -> Seq<(Seq<char>, DialectFunctionCategory)> {
    v.builtins.map_values(|c: CodedFunction| (c.name, c.category)) + v.extensions.map_values(
        |c: CodedFunction| (c.name, c.category),
    ) + v.session.map_values(|d: FunctionDefView| (d.name, DialectFunctionCategory::Scalar))
}

/// Each entry whose name (ignoring case) has not occurred before, in order.
pub open spec fn unique_by_name(s: Seq<(Seq<char>, DialectFunctionCategory)>) -> Seq<(Seq<char>, DialectFunctionCategory)>
    decreases s.len(),
{
    if s.len() == 0 {
        Seq::empty()
    } else {
        let d = unique_by_name(s.drop_last());
        if exists|i: int| 0 <= i < d.len() && same_ignoring_case(#[trigger] d[i].0, s.last().0) {
            d
        } else {
            d.push(s.last())
        }
    }
}

/// Resolved function catalog for a dialect.
///
/// Merges three sources with the following priority:
/// 1. the dialect's built-in functions,
/// 2. the dialect's extension functions,
/// 3. session/document user-defined functions.
///
/// Arity checking works directly on the compact encoded arities.
pub struct FunctionCatalog {
    builtins: Vec<OwnedFunctionInfo>,
    extensions: Vec<OwnedFunctionInfo>,
    session: Vec<FunctionDef>,
}

impl View for FunctionCatalog {
    type V = FunctionCatalogView;

    closed spec fn view(&self) -> FunctionCatalogView {
        FunctionCatalogView {
            builtins: self.builtins@.map_values(|f: OwnedFunctionInfo| f@),
            extensions: self.extensions@.map_values(|f: OwnedFunctionInfo| f@),
            session: function_def_views(self.session@),
        }
    }
}

/// Owned copies of a dialect's functions.
fn owned_infos(fs: &Vec<BuiltinFunction>) -> (r: Vec<OwnedFunctionInfo>)
    ensures
        r@.map_values(|f: OwnedFunctionInfo| f@) == coded_functions(fs@),
{
    let mut out: Vec<OwnedFunctionInfo> = Vec::new();
    let mut i: usize = 0;
    while i < fs.len()
        invariant
            0 <= i <= fs@.len(),
            out@.len() == i,
            forall|k: int| 0 <= k < i ==> (#[trigger] out@[k])@ == coded_functions(fs@)[k],
        decreases fs@.len() - i,
    {
        let c = fs[i].duplicate();
        out.push(OwnedFunctionInfo { name: c.name, arities: c.arities, category: c.category });
        i += 1;
    }
    assert(out@.map_values(|f: OwnedFunctionInfo| f@) =~= coded_functions(fs@));
    out
}

/// What a scan of one list of coded functions found.
fn scan_coded(
    list: &Vec<OwnedFunctionInfo>,
    name: &str,
    arg_count: usize,
    found: &mut bool,
    expected: &mut Vec<usize>,
) -> (accepted: bool)
    ensures
        ({
            let l = list@.map_values(|f: OwnedFunctionInfo| f@);
            &&& accepted ==> accepting_in(l, name@, arg_count as nat)
            &&& !accepted ==> {
                &&& forall|i: int| 0 <= i < l.len() && same_ignoring_case(#[trigger] l[i].name, name@)
                    ==> !codes_accept(l[i].arities, arg_count as nat)
                &&& *final(found) == (*old(found) || named_in(l, name@))
                &&& forall|m: usize| #[trigger] final(expected)@.contains(m) <==> (old(expected)@.contains(m)
                    || fixed_in(l, name@, m))
            }
        }),
{
    let ghost l = list@.map_values(|f: OwnedFunctionInfo| f@);
    let mut i: usize = 0;
    while i < list.len()
        invariant
            0 <= i <= list@.len(),
            l == list@.map_values(|f: OwnedFunctionInfo| f@),
            forall|k: int| 0 <= k < i && same_ignoring_case(#[trigger] l[k].name, name@) ==> !codes_accept(l[k].arities, arg_count as nat),
            *found == (*old(found) || exists|k: int| 0 <= k < i && same_ignoring_case(#[trigger] l[k].name, name@)),
            forall|m: usize| #[trigger] expected@.contains(m) <==> (old(expected)@.contains(m) || exists|k: int|
                0 <= k < i && same_ignoring_case(#[trigger] l[k].name, name@) && has_fixed_code(l[k].arities, m)),
        decreases list@.len() - i,
    {
        let info = &list[i];
        assert(l[i as int] == info@);
        if eq_ignore_ascii_case(info.name.as_str(), name) {
            assert(same_ignoring_case(l[i as int].name, name@));
            *found = true;
            if matches_arity(info.arities.as_slice(), arg_count) {
                assert(codes_accept(l[i as int].arities, arg_count as nat));
                return true;
            }
            let ghost e0 = expected@;
            let mut variadic = false;
            collect_arities(info.arities.as_slice(), expected, &mut variadic);
            proof {
                lemma_fixed_codes_contains(info.arities@);
                assert forall|m: usize| #[trigger] expected@.contains(m) <==> (e0.contains(m) || has_fixed_code(l[i as int].arities, m)) by {
                    if expected@.contains(m) {
                        let j = choose|j: int| 0 <= j < expected@.len() && expected@[j] == m;
                        if j < e0.len() {
                            assert(e0[j] == m);
                        } else {
                            assert(fixed_codes(info.arities@)[j - e0.len()] == m);
                            assert(fixed_codes(info.arities@).contains(m));
                        }
                    }
                    if e0.contains(m) {
                        let j = choose|j: int| 0 <= j < e0.len() && e0[j] == m;
                        assert(expected@[j] == m);
                    }
                    if has_fixed_code(l[i as int].arities, m) {
                        assert(fixed_codes(info.arities@).contains(m));
                        let j = choose|j: int| 0 <= j < fixed_codes(info.arities@).len() && fixed_codes(info.arities@)[j] == m;
                        assert(expected@[e0.len() + j] == m);
                    }
                }
            }
        }
        i += 1;
    }
    false
}

impl FunctionCatalog {
    /// Build the catalog of a dialect: its built-in and extension functions,
    /// and no session functions.
    pub fn for_dialect(dialect: &Dialect) -> (r: Self)
        ensures
            r@ == (FunctionCatalogView {
                builtins: coded_functions(dialect.functions()),
                extensions: coded_functions(dialect.extensions()),
                session: Seq::empty(),
            }),
    {
        let builtins = owned_infos(dialect.builtin_functions());
        let extensions = owned_infos(dialect.extension_functions());
        let r = FunctionCatalog { builtins, extensions, session: Vec::new() };
        assert(r@.session =~= Seq::<FunctionDefView>::empty());
        r
    }

    /// Append user-defined functions.
    pub fn add_session_functions(&mut self, functions: &[FunctionDef])
        ensures
            final(self)@ == (FunctionCatalogView {
                session: old(self)@.session + function_def_views(functions@),
                ..old(self)@
            }),
    {
        let ghost s0 = self.session@;
        let mut i: usize = 0;
        while i < functions.len()
            invariant
                0 <= i <= functions@.len(),
                self.builtins == old(self).builtins,
                self.extensions == old(self).extensions,
                s0 == old(self).session@,
                self.session@.len() == s0.len() + i,
                forall|k: int| 0 <= k < s0.len() ==> #[trigger] self.session@[k] == s0[k],
                forall|k: int| 0 <= k < i ==> (#[trigger] self.session@[s0.len() + k])@ == functions@[k]@,
            decreases functions@.len() - i,
        {
            let f = &functions[i];
            self.session.push(FunctionDef { name: f.name.clone(), args: f.args });
            i += 1;
        }
        proof {
            let want = old(self)@.session + function_def_views(functions@);
            assert forall|k: int| 0 <= k < want.len() implies #[trigger] self@.session[k] == want[k] by {
                if k < s0.len() {
                    assert(self.session@[k] == s0[k]);
                } else {
                    assert(self.session@[s0.len() + (k - s0.len())]@ == functions@[k - s0.len()]@);
                }
            }
            assert(self@.session =~= want);
        }
    }

    /// Check whether a call of `name` with `arg_count` arguments is valid:
    /// accepted when some function of that name accepts that many arguments
    /// (a minimum-arity form only from its minimum on), otherwise the fixed
    /// arities the functions of that name would accept.
    pub fn check_call(&self, name: &str, arg_count: usize) -> (r: FunctionCheckResult)
        ensures
            call_check_spec(self@, name@, arg_count as nat, r),
    {
        let ghost v = self@;
        let mut found = false;
        let mut expected: Vec<usize> = Vec::new();
        if scan_coded(&self.builtins, name, arg_count, &mut found, &mut expected) {
            return FunctionCheckResult::Accepted;
        }
        if scan_coded(&self.extensions, name, arg_count, &mut found, &mut expected) {
            return FunctionCheckResult::Accepted;
        }
        let ghost e1 = expected@;
        let mut j: usize = 0;
        while j < self.session.len()
            invariant
                0 <= j <= self.session@.len(),
                v == self@,
                forall|k: int| 0 <= k < j && same_ignoring_case(#[trigger] v.session[k].name, name@)
                    ==> !(v.session[k].args is None || v.session[k].args == Some(arg_count)),
                found == (named_in(v.builtins, name@) || named_in(v.extensions, name@) || exists|k: int|
                    0 <= k < j && same_ignoring_case(#[trigger] v.session[k].name, name@)),
                forall|m: usize| #[trigger] expected@.contains(m) <==> (e1.contains(m) || exists|k: int|
                    0 <= k < j && same_ignoring_case(#[trigger] v.session[k].name, name@) && v.session[k].args == Some(m)),
            decreases self.session@.len() - j,
        {
            let func = &self.session[j];
            assert(v.session[j as int] == func@);
            if eq_ignore_ascii_case(func.name.as_str(), name) {
                assert(same_ignoring_case(v.session[j as int].name, name@));
                found = true;
                match func.args {
                    None => {
                        return FunctionCheckResult::Accepted;
                    },
                    Some(n) => {
                        if n == arg_count {
                            return FunctionCheckResult::Accepted;
                        }
                        let ghost e0 = expected@;
                        expected.push(n);
                        proof {
                            assert forall|m: usize| #[trigger] expected@.contains(m) <==> (e0.contains(m) || m == n) by {
                                if expected@.contains(m) {
                                    let q = choose|q: int| 0 <= q < expected@.len() && expected@[q] == m;
                                    if q < e0.len() {
                                        assert(e0[q] == m);
                                    }
                                }
                                if e0.contains(m) {
                                    let q = choose|q: int| 0 <= q < e0.len() && e0[q] == m;
                                    assert(expected@[q] == m);
                                }
                                if m == n {
                                    assert(expected@[e0.len() as int] == m);
                                }
                            }
                        }
                    },
                }
            }
            j += 1;
        }
        if !found {
            return FunctionCheckResult::Unknown;
        }
        let sorted = sorted_unique(&expected);
        proof {
            assert(!accepting_in(v.builtins, name@, arg_count as nat)) by {
                if accepting_in(v.builtins, name@, arg_count as nat) {
                    let i = choose|i: int| 0 <= i < v.builtins.len() && same_ignoring_case(#[trigger] v.builtins[i].name, name@)
                        && codes_accept(v.builtins[i].arities, arg_count as nat);
                }
            }
            assert(!accepting_in(v.extensions, name@, arg_count as nat)) by {
                if accepting_in(v.extensions, name@, arg_count as nat) {
                    let i = choose|i: int| 0 <= i < v.extensions.len() && same_ignoring_case(#[trigger] v.extensions[i].name, name@)
                        && codes_accept(v.extensions[i].arities, arg_count as nat);
                }
            }
            assert(!session_accepting(v.session, name@, arg_count as nat)) by {
                if session_accepting(v.session, name@, arg_count as nat) {
                    let k = choose|k: int| 0 <= k < v.session.len() && same_ignoring_case(#[trigger] v.session[k].name, name@)
                        && (v.session[k].args is None || v.session[k].args == Some(arg_count));
                }
            }
        }
        FunctionCheckResult::WrongArity { expected: sorted }
    }
}


/// The plain values of a list of (name, category) pairs.
pub open spec fn entry_views(v: Seq<(&str, DialectFunctionCategory)>) -> Seq<(Seq<char>, DialectFunctionCategory)> {
    v.map_values(|p: (&str, DialectFunctionCategory)| (p.0@, p.1))
}

/// The plain values of an optional lookup result.
pub open spec fn lookup_view(r: Option<FunctionLookup>) -> Option<FunctionLookupView> {
    match r {
        Some(l) => Some(l@),
        None => None,
    }
}

/// Appends `(name, category)` unless an entry with the same name ignoring
/// case is already there.
fn push_unique_entry<'a>(
    out: &mut Vec<(&'a str, DialectFunctionCategory)>,
    name: &'a str,
    category: DialectFunctionCategory,
    Ghost(input): Ghost<Seq<(Seq<char>, DialectFunctionCategory)>>,
)
    requires
        entry_views(old(out)@) == unique_by_name(input),
    ensures
        entry_views(final(out)@) == unique_by_name(input.push((name@, category))),
{
    let ghost d = entry_views(out@);
    let ghost all = input.push((name@, category));
    assert(all.drop_last() =~= input);
    let mut i: usize = 0;
    while i < out.len()
        invariant
            0 <= i <= out@.len(),
            d == entry_views(out@),
            d == unique_by_name(input),
            all == input.push((name@, category)),
            all.drop_last() == input,
            forall|k: int| 0 <= k < i ==> !same_ignoring_case(#[trigger] d[k].0, name@),
        decreases out@.len() - i,
    {
        let (existing, _) = out[i];
        if eq_ignore_ascii_case(existing, name) {
            assert(same_ignoring_case(d[i as int].0, name@));
            assert(all.last() == (name@, category));
            assert(same_ignoring_case(d[i as int].0, all.last().0));
            assert(unique_by_name(all) == unique_by_name(all.drop_last()));
            return;
        }
        i += 1;
    }
    out.push((name, category));
    assert(entry_views(out@) =~= d.push((name@, category)));
}

/// The index of the first function in `list` named `name`.
fn find_coded(list: &Vec<OwnedFunctionInfo>, name: &str) -> (r: Option<usize>)
    ensures
        ({
            let l = list@.map_values(|f: OwnedFunctionInfo| f@);
            match r {
                None => first_coded(l, name@) is None,
                Some(i) => i < l.len() && first_coded(l, name@) == Some(l[i as int]),
            }
        }),
{
    let ghost l = list@.map_values(|f: OwnedFunctionInfo| f@);
    let mut i: usize = 0;
    assert(l.skip(0) =~= l);
    while i < list.len()
        invariant
            0 <= i <= list@.len(),
            l == list@.map_values(|f: OwnedFunctionInfo| f@),
            first_coded(l, name@) == first_coded(l.skip(i as int), name@),
        decreases list@.len() - i,
    {
        assert(l.skip(i as int)[0] == l[i as int]);
        assert(l.skip(i as int).drop_first() =~= l.skip(i + 1));
        assert(l[i as int] == list@[i as int]@);
        if eq_ignore_ascii_case(list[i].name.as_str(), name) {
            return Some(i);
        }
        i += 1;
    }
    assert(l.skip(i as int).len() == 0);
    None
}

/// The lookup result for a coded function.
fn describe_coded<'a>(info: &'a OwnedFunctionInfo) -> (r: FunctionLookup<'a>)
    ensures
        describes_coded(r@, info@),
{
    let mut fixed: Vec<usize> = Vec::new();
    let mut variadic = false;
    collect_arities(info.arities.as_slice(), &mut fixed, &mut variadic);
    let sorted = sorted_unique(&fixed);
    proof {
        lemma_fixed_codes_contains(info.arities@);
        assert(fixed@ =~= fixed_codes(info.arities@));
    }
    FunctionLookup { name: info.name.as_str(), category: info.category, fixed_arities: sorted, is_variadic: variadic }
}

impl FunctionCatalog {
    /// Look up a function by name: the first built-in, extension or session
    /// function with that name, ignoring case.
    pub fn lookup(&self, name: &str) -> (r: Option<FunctionLookup<'_>>)
        ensures
            lookup_spec(self@, name@, lookup_view(r)),
    {
        match find_coded(&self.builtins, name) {
            Some(i) => {
                return Some(describe_coded(&self.builtins[i]));
            },
            None => {},
        }
        match find_coded(&self.extensions, name) {
            Some(i) => {
                return Some(describe_coded(&self.extensions[i]));
            },
            None => {},
        }
        let ghost ss = self@.session;
        let mut j: usize = 0;
        assert(ss.skip(0) =~= ss);
        while j < self.session.len()
            invariant
                0 <= j <= self.session@.len(),
                ss == self@.session,
                first_coded(self@.builtins, name@) is None,
                first_coded(self@.extensions, name@) is None,
                first_session(ss, name@) == first_session(ss.skip(j as int), name@),
            decreases self.session@.len() - j,
        {
            assert(ss.skip(j as int)[0] == ss[j as int]);
            assert(ss.skip(j as int).drop_first() =~= ss.skip(j + 1));
            let func = &self.session[j];
            assert(ss[j as int] == func@);
            if eq_ignore_ascii_case(func.name.as_str(), name) {
                let fixed_arities: Vec<usize> = match func.args {
                    Some(m) => vec![m],
                    None => Vec::new(),
                };
                let r = FunctionLookup {
                    name: func.name.as_str(),
                    category: DialectFunctionCategory::Scalar,
                    fixed_arities,
                    is_variadic: func.args.is_none(),
                };
                assert(r@.fixed_arities =~= match func.args {
                    Some(m) => seq![m],
                    None => Seq::<usize>::empty(),
                });
                return Some(r);
            }
            j += 1;
        }
        assert(ss.skip(j as int).len() == 0);
        None
    }

    /// Each function once, ignoring case (the first occurrence wins), in
    /// priority order, with its category.
    fn unique_entries(&self) -> (r: Vec<(&str, DialectFunctionCategory)>)
        ensures
            entry_views(r@) == unique_by_name(all_entries(self@)),
    {
        let ghost v = self@;
        let ghost be = v.builtins.map_values(|c: CodedFunction| (c.name, c.category));
        let ghost ee = v.extensions.map_values(|c: CodedFunction| (c.name, c.category));
        let ghost se = v.session.map_values(|d: FunctionDefView| (d.name, DialectFunctionCategory::Scalar));
        let mut out: Vec<(&str, DialectFunctionCategory)> = Vec::new();
        assert(entry_views(out@) =~= unique_by_name(be.take(0)));
        let mut i: usize = 0;
        while i < self.builtins.len()
            invariant
                0 <= i <= self.builtins@.len(),
                v == self@,
                be == v.builtins.map_values(|c: CodedFunction| (c.name, c.category)),
                entry_views(out@) == unique_by_name(be.take(i as int)),
            decreases self.builtins@.len() - i,
        {
            let info = &self.builtins[i];
            assert(v.builtins[i as int] == info@);
            push_unique_entry(&mut out, info.name.as_str(), info.category, Ghost(be.take(i as int)));
            assert(be.take(i + 1) =~= be.take(i as int).push((info.name@, info.category)));
            i += 1;
        }
        assert(be.take(i as int) =~= be);
        let mut i: usize = 0;
        assert(be + ee.take(0) =~= be);
        while i < self.extensions.len()
            invariant
                0 <= i <= self.extensions@.len(),
                v == self@,
                ee == v.extensions.map_values(|c: CodedFunction| (c.name, c.category)),
                entry_views(out@) == unique_by_name(be + ee.take(i as int)),
            decreases self.extensions@.len() - i,
        {
            let info = &self.extensions[i];
            assert(v.extensions[i as int] == info@);
            push_unique_entry(&mut out, info.name.as_str(), info.category, Ghost(be + ee.take(i as int)));
            assert(be + ee.take(i + 1) =~= (be + ee.take(i as int)).push((info.name@, info.category)));
            i += 1;
        }
        assert(ee.take(i as int) =~= ee);
        let mut j: usize = 0;
        assert(be + ee + se.take(0) =~= be + ee);
        while j < self.session.len()
            invariant
                0 <= j <= self.session@.len(),
                v == self@,
                se == v.session.map_values(|d: FunctionDefView| (d.name, DialectFunctionCategory::Scalar)),
                entry_views(out@) == unique_by_name(be + ee + se.take(j as int)),
            decreases self.session@.len() - j,
        {
            let func = &self.session[j];
            assert(v.session[j as int] == func@);
            push_unique_entry(&mut out, func.name.as_str(), DialectFunctionCategory::Scalar, Ghost(be + ee + se.take(j as int)));
            assert(be + ee + se.take(j + 1) =~= (be + ee + se.take(j as int)).push((func.name@, DialectFunctionCategory::Scalar)));
            j += 1;
        }
        assert(se.take(j as int) =~= se);
        out
    }

    /// All unique function names (deduplicated ignoring case, first
    /// occurrence kept), in priority order.
    pub fn all_names(&self) -> (r: Vec<String>)
        ensures
            r@.map_values(|s: String| s@) == unique_by_name(all_entries(self@)).map_values(
                |p: (Seq<char>, DialectFunctionCategory)| p.0,
            ),
    {
        let entries = self.unique_entries();
        let ghost want = unique_by_name(all_entries(self@)).map_values(|p: (Seq<char>, DialectFunctionCategory)| p.0);
        let mut names: Vec<String> = Vec::new();
        let mut i: usize = 0;
        while i < entries.len()
            invariant
                0 <= i <= entries@.len(),
                entry_views(entries@) == unique_by_name(all_entries(self@)),
                want == unique_by_name(all_entries(self@)).map_values(|p: (Seq<char>, DialectFunctionCategory)| p.0),
                names@.len() == i,
                forall|k: int| 0 <= k < i ==> (#[trigger] names@[k])@ == want[k],
            decreases entries@.len() - i,
        {
            let (n, _) = entries[i];
            assert(entry_views(entries@)[i as int] == (n@, entries@[i as int].1));
            names.push(n.to_owned());
            i += 1;
        }
        assert(names@.map_values(|s: String| s@) =~= want);
        names
    }

    /// All known functions as `(name, category)` pairs, each name once.
    pub fn iter(&self) -> (r: std::vec::IntoIter<(&str, DialectFunctionCategory)>)
        ensures
            entry_views(r.remaining()) == unique_by_name(all_entries(self@)),
    {
        broadcast use vstd::std_specs::vec::group_vec_axioms;
        let entries = self.unique_entries();
        entries.into_iter()
    }

    /// All unique function names, each once, in priority order.
    pub fn unique_names(&self) -> (r: std::vec::IntoIter<&str>)
        ensures
            r.remaining().map_values(|s: &str| s@) == unique_by_name(all_entries(self@)).map_values(
                |p: (Seq<char>, DialectFunctionCategory)| p.0,
            ),
    {
        broadcast use vstd::std_specs::vec::group_vec_axioms;
        let entries = self.unique_entries();
        let ghost want = unique_by_name(all_entries(self@)).map_values(|p: (Seq<char>, DialectFunctionCategory)| p.0);
        let mut names: Vec<&str> = Vec::new();
        let mut i: usize = 0;
        while i < entries.len()
            invariant
                0 <= i <= entries@.len(),
                entry_views(entries@) == unique_by_name(all_entries(self@)),
                want == unique_by_name(all_entries(self@)).map_values(|p: (Seq<char>, DialectFunctionCategory)| p.0),
                names@.len() == i,
                forall|k: int| 0 <= k < i ==> (#[trigger] names@[k])@ == want[k],
            decreases entries@.len() - i,
        {
            let (n, _) = entries[i];
            assert(entry_views(entries@)[i as int] == (n@, entries@[i as int].1));
            names.push(n);
            i += 1;
        }
        assert(names@.map_values(|s: &str| s@) =~= want);
        names.into_iter()
    }
}

} // verus!
