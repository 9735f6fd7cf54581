use syntaqlite::relations::{ColumnDef, RelationCatalog, RelationDef, RelationKind};

fn col(name: &str) -> ColumnDef {
    ColumnDef { name: name.to_string(), declared_type: None, is_primary_key: false, is_nullable: true }
}

fn table(name: &str, cols: &[&str]) -> RelationDef {
    RelationDef { name: name.to_string(), columns: cols.iter().map(|c| col(c)).collect(), kind: RelationKind::Table }
}

#[test]
fn lookup_document_first() {
    let session = [table("users", &["id", "email"])];
    let document = [table("users", &["id", "name"])];
    let catalog = RelationCatalog::new(&session, &document);
    let r = catalog.lookup("users").unwrap();
    assert_eq!(r.columns[1].name, "name"); // document wins
}

#[test]
fn lookup_falls_back_to_session() {
    let session = [table("orders", &["id"])];
    let document = [];
    let catalog = RelationCatalog::new(&session, &document);
    assert!(catalog.lookup("orders").is_some());
}

#[test]
fn lookup_case_insensitive() {
    let session = [table("Users", &["id"])];
    let catalog = RelationCatalog::new(&session, &[]);
    assert!(catalog.lookup("USERS").is_some());
    assert!(catalog.lookup("users").is_some());
}

#[test]
fn resolve_returns_false_for_unknown() {
    let catalog = RelationCatalog::new(&[], &[]);
    assert!(!catalog.resolve("nope"));
}

#[test]
fn columns_for_returns_columns() {
    let session = [table("t", &["a", "b"])];
    let catalog = RelationCatalog::new(&session, &[]);
    let cols = catalog.columns_for("t").unwrap();
    assert_eq!(cols.len(), 2);
    assert_eq!(cols[0].name, "a");
}

#[test]
fn all_names_deduplicates() {
    let session = [table("T", &[])];
    let document = [table("t", &[])];
    let catalog = RelationCatalog::new(&session, &document);
    let names = catalog.all_names();
    assert_eq!(names.len(), 1);
}

#[test]
fn all_column_names_filters_by_table() {
    let session = [table("a", &["x", "y"]), table("b", &["z"])];
    let catalog = RelationCatalog::new(&session, &[]);
    let cols = catalog.all_column_names(Some("a"));
    assert_eq!(cols, vec!["x", "y"]);
}

#[test]
fn all_column_names_all_tables() {
    let session = [table("a", &["x"]), table("b", &["y"])];
    let catalog = RelationCatalog::new(&session, &[]);
    let cols = catalog.all_column_names(None);
    assert_eq!(cols, vec!["x", "y"]);
}

#[test]
fn iter_yields_document_then_session() {
    let session = [table("s", &[])];
    let document = [table("d", &[])];
    let catalog = RelationCatalog::new(&session, &document);
    let names: Vec<_> = catalog.iter().map(|r| r.name.as_str()).collect();
    assert_eq!(names, vec!["d", "s"]);
}

#[test]
fn all_names_are_lowercase_in_first_occurrence_order() {
    let session = [table("Zoo", &[]), table("apple", &[])];
    let document = [table("MANGO", &[]), table("zoo", &[])];
    let catalog = RelationCatalog::new(&session, &document);
    assert_eq!(catalog.all_names(), vec!["mango", "zoo", "apple"]);
}

#[test]
fn all_column_names_sorted_and_lowercased() {
    let session = [table("a", &["Beta", "alpha"]), table("A", &["ALPHA", "gamma"])];
    let catalog = RelationCatalog::new(&session, &[]);
    assert_eq!(catalog.all_column_names(Some("a")), vec!["alpha", "beta", "gamma"]);
    assert!(catalog.columns_for("missing").is_none());
    assert!(catalog.resolve("A"));
}
