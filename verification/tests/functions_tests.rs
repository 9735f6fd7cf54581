use syntaqlite::catalog::FunctionCheckResult;
use syntaqlite::dialect::{BuiltinFunction, Dialect, DialectFunctionCategory};
use syntaqlite::functions::{collect_arities, matches_arity, FunctionCatalog, FunctionDef};

fn builtin(name: &str, category: DialectFunctionCategory, arities: &[i16]) -> BuiltinFunction {
    BuiltinFunction { name: name.to_string(), category, arities: arities.to_vec() }
}

#[test]
fn matches_arity_exact() {
    assert!(matches_arity(&[2], 2));
    assert!(!matches_arity(&[2], 3));
}

#[test]
fn matches_arity_variadic_any() {
    assert!(matches_arity(&[-1], 0));
    assert!(matches_arity(&[-1], 100));
}

#[test]
fn matches_arity_variadic_min() {
    assert!(!matches_arity(&[-4], 2));
    assert!(matches_arity(&[-4], 3));
    assert!(matches_arity(&[-4], 10));
}

#[test]
fn matches_arity_empty_is_variadic() {
    assert!(matches_arity(&[], 0));
    assert!(matches_arity(&[], 42));
}

#[test]
fn matches_arity_mixed() {
    assert!(matches_arity(&[1, 2, -1], 0));
    assert!(matches_arity(&[1, 2, -1], 5));
}

#[test]
fn collect_arities_splits_fixed_and_variadic() {
    let mut expected = vec![9];
    let mut variadic = false;
    collect_arities(&[3, 1, 3], &mut expected, &mut variadic);
    assert_eq!(expected, vec![9, 3, 1, 3]);
    assert!(!variadic);
    collect_arities(&[2, -3], &mut expected, &mut variadic);
    assert_eq!(expected, vec![9, 3, 1, 3, 2]);
    assert!(variadic);
    let mut none = Vec::new();
    let mut v = false;
    collect_arities(&[], &mut none, &mut v);
    assert!(none.is_empty());
    assert!(v);
}

fn sample_catalog() -> FunctionCatalog {
    let dialect = Dialect::new(vec![
        builtin("abs", DialectFunctionCategory::Scalar, &[1]),
        builtin("substr", DialectFunctionCategory::Scalar, &[3, 2]),
        builtin("printf", DialectFunctionCategory::Scalar, &[-2]),
        builtin("count", DialectFunctionCategory::Aggregate, &[0, 1]),
    ])
    .with_extensions(vec![builtin("ABS", DialectFunctionCategory::Window, &[2]), builtin("ext", DialectFunctionCategory::Scalar, &[])]);
    FunctionCatalog::for_dialect(&dialect)
}

#[test]
fn check_call_combines_all_sources() {
    let mut cat = sample_catalog();
    assert_eq!(cat.check_call("abs", 1), FunctionCheckResult::Accepted);
    assert_eq!(cat.check_call("abs", 2), FunctionCheckResult::Accepted); // extension overload
    assert_eq!(cat.check_call("abs", 3), FunctionCheckResult::WrongArity { expected: vec![1, 2] });
    assert_eq!(cat.check_call("substr", 1), FunctionCheckResult::WrongArity { expected: vec![2, 3] });
    // A minimum-arity code accepts counts from its minimum on, and no fewer.
    assert_eq!(cat.check_call("printf", 0), FunctionCheckResult::WrongArity { expected: vec![] });
    assert_eq!(cat.check_call("printf", 1), FunctionCheckResult::Accepted);
    assert_eq!(cat.check_call("printf", 7), FunctionCheckResult::Accepted);
    assert_eq!(cat.check_call("ext", 99), FunctionCheckResult::Accepted);
    assert_eq!(cat.check_call("nope", 0), FunctionCheckResult::Unknown);
    cat.add_session_functions(&[
        FunctionDef { name: "mine".into(), args: Some(2) },
        FunctionDef { name: "MINE".into(), args: Some(4) },
        FunctionDef { name: "Abs".into(), args: Some(5) },
    ]);
    assert_eq!(cat.check_call("mine", 4), FunctionCheckResult::Accepted);
    assert_eq!(cat.check_call("mine", 3), FunctionCheckResult::WrongArity { expected: vec![2, 4] });
    assert_eq!(cat.check_call("abs", 3), FunctionCheckResult::WrongArity { expected: vec![1, 2, 5] });
}

#[test]
fn lookup_prefers_builtins_then_extensions_then_session() {
    let mut cat = sample_catalog();
    cat.add_session_functions(&[FunctionDef { name: "Mine".into(), args: None }, FunctionDef { name: "two".into(), args: Some(2) }]);
    let abs = cat.lookup("ABS").expect("abs");
    assert_eq!(abs.name, "abs");
    assert_eq!(abs.category, DialectFunctionCategory::Scalar);
    assert_eq!(abs.fixed_arities, vec![1]);
    assert!(!abs.is_variadic);
    let substr = cat.lookup("substr").expect("substr");
    assert_eq!(substr.fixed_arities, vec![2, 3]);
    let printf = cat.lookup("printf").expect("printf");
    assert!(printf.is_variadic);
    assert!(printf.fixed_arities.is_empty());
    let ext = cat.lookup("ext").expect("ext");
    assert!(ext.is_variadic);
    let mine = cat.lookup("mine").expect("mine");
    assert_eq!(mine.name, "Mine");
    assert_eq!(mine.category, DialectFunctionCategory::Scalar);
    assert!(mine.is_variadic);
    assert!(mine.fixed_arities.is_empty());
    let two = cat.lookup("two").expect("two");
    assert_eq!(two.fixed_arities, vec![2]);
    assert!(!two.is_variadic);
    assert!(cat.lookup("none").is_none());
}

#[test]
fn unique_names_keep_first_spelling() {
    let mut cat = sample_catalog();
    cat.add_session_functions(&[FunctionDef { name: "COUNT".into(), args: None }, FunctionDef { name: "zeta".into(), args: None }]);
    assert_eq!(cat.all_names(), vec!["abs", "substr", "printf", "count", "ext", "zeta"]);
    let names: Vec<&str> = cat.unique_names().collect();
    assert_eq!(names, vec!["abs", "substr", "printf", "count", "ext", "zeta"]);
    let pairs: Vec<(&str, DialectFunctionCategory)> = cat.iter().collect();
    assert_eq!(pairs[3], ("count", DialectFunctionCategory::Aggregate));
    assert_eq!(pairs[5], ("zeta", DialectFunctionCategory::Scalar));
}

#[test]
fn check_call_rejects_too_few_arguments_for_minimum_arity() {
    let dialect = Dialect::new(vec![builtin("f", DialectFunctionCategory::Scalar, &[-4])]);
    let cat = FunctionCatalog::for_dialect(&dialect);
    assert_eq!(cat.check_call("F", 2), FunctionCheckResult::WrongArity { expected: vec![] });
    assert_eq!(cat.check_call("f", 3), FunctionCheckResult::Accepted);
}
