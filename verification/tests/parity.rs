use engram::checksum::sha256_of_text;
use engram::parity::{
    count_top_keys, normalize_info, normalize_table_info, program_places, resolve_surreal,
    same_lines, same_schema, sorted_distinct, ProgramPath, Section, TableInfo,
};

fn texts(v: &[&str]) -> Vec<Option<String>> {
    v.iter().map(|s| Some(s.to_string())).collect()
}

fn section(name: &str, definitions: &[&str]) -> Section {
    Section { name: name.to_string(), definitions: texts(definitions) }
}

#[test]
fn texts_are_sorted_and_distinct() {
    let lines = ["b", "a", "b", "", "a b"].iter().map(|s| s.to_string()).collect();
    assert_eq!(sorted_distinct(lines), vec!["", "a", "a b", "b"]);
    assert!(sorted_distinct(vec![]).is_empty());
}

#[test]
fn a_report_is_reduced_to_its_definitions() {
    let mut info = vec![
        section("users", &["DEFINE USER x"]),
        section("tables", &["  DEFINE TABLE b\n", "DEFINE TABLE a", "DEFINE TABLE b"]),
        section("sequences", &["DEFINE SEQUENCE s"]),
        section("buckets", &["DEFINE BUCKET c"]),
    ];
    info[1].definitions.push(None);
    assert_eq!(
        normalize_info(&info),
        vec!["DEFINE BUCKET c", "DEFINE TABLE a", "DEFINE TABLE b", "DEFINE USER x"]
    );
    assert_eq!(count_top_keys(&info), 4);
}

#[test]
fn tables_are_reduced_to_their_definitions() {
    let tables = vec![
        TableInfo {
            name: "b".to_string(),
            fields: texts(&["FIELD z"]),
            indexes: texts(&[" INDEX i "]),
            events: texts(&[]),
        },
        TableInfo {
            name: "a".to_string(),
            fields: texts(&["FIELD z"]),
            indexes: vec![None],
            events: texts(&["EVENT e"]),
        },
    ];
    assert_eq!(normalize_table_info(&tables), vec!["EVENT e", "FIELD z", "INDEX i"]);
}

#[test]
fn schemas_are_the_same_whatever_their_order() {
    let a = vec![section("tables", &["x", "y"]), section("params", &["p"])];
    let b = vec![section("params", &[" p"]), section("tables", &["y", "x", "x"])];
    let c = vec![section("tables", &["x"]), section("params", &["p"])];
    assert!(same_schema(&a, &b));
    assert!(!same_schema(&a, &c));
    assert!(same_lines(&normalize_info(&a), &normalize_info(&b)));
}

#[test]
fn the_program_is_looked_for_in_order() {
    let places = |present: &[bool]| -> Vec<ProgramPath> {
        program_places()
            .into_iter()
            .zip(present)
            .map(|(path, exists)| ProgramPath { path, exists: *exists })
            .collect()
    };
    let asked = |exists| Some(ProgramPath { path: "/x/surreal".to_string(), exists });
    assert_eq!(resolve_surreal(asked(true), &places(&[true, true, true]), None).unwrap(), "/x/surreal");
    assert_eq!(
        resolve_surreal(asked(false), &places(&[true, true, true]), None).unwrap_err(),
        "--surreal path does not exist: /x/surreal"
    );
    assert_eq!(
        resolve_surreal(None, &places(&[false, true, true]), None).unwrap(),
        "/usr/local/bin/surreal"
    );
    assert_eq!(
        resolve_surreal(None, &places(&[false, false, false]), Some("/p/surreal".to_string())).unwrap(),
        "/p/surreal"
    );
    assert_eq!(
        resolve_surreal(None, &places(&[false, false, false]), None).unwrap_err(),
        "could not locate the `surreal` binary; pass --surreal <path> to override"
    );
}

#[test]
fn the_schema_checksum_is_that_of_sha256() {
    assert_eq!(
        sha256_of_text("abc"),
        "ba7816bf8f01cfea414140de5dae2223b00361a396177a9cb410ff61f20015ad"
    );
}
