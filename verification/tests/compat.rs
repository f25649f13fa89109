use openwarrant::compat::{
    declared_schema, json_schema_of, json_version_of, known_major, newer_record, parse_schema, schemas_in,
    toml_schema_of,
};
use openwarrant::structured::{JsonValue, Scalar};
use openwarrant::diagnostic::Severity;

#[test]
fn a_newer_major_is_unknown_and_an_unrelated_schema_is_ignored() {
    assert_eq!(parse_schema("oh.war/verification/v9"), Some(("verification".to_owned(), 9)));
    assert_eq!(parse_schema("oh.war/stage-dispatch/v1"), Some(("stage-dispatch".to_owned(), 1)));
    assert_eq!(parse_schema("something/else"), None);
    assert_eq!(known_major("verification"), Some(1));
    assert_eq!(known_major("verification-response"), None);
    let d = newer_record("verifications/OBL-001.toml", "verification", 9, "1.0.0").unwrap();
    assert_eq!(d.rule, "compat.newer-record");
    assert_eq!(d.severity, Severity::Unknown);
    assert!(d.file.as_deref().is_some_and(|f| f.ends_with("OBL-001.toml")));
    assert!(newer_record("x.toml", "verification", 1, "1.0.0").is_none());
    assert!(newer_record("x.toml", "verification-request", 7, "1.0.0").is_none());
}

#[test]
fn a_schema_major_parses_like_a_number() {
    assert_eq!(parse_schema("  oh.war/a/vb/v+2 "), Some(("a/vb".to_owned(), 2)));
    assert_eq!(parse_schema("oh.war/a/v"), None);
    assert_eq!(parse_schema("oh.war/a/v4294967296"), None);
    assert_eq!(parse_schema("oh.war/a/v007"), Some(("a".to_owned(), 7)));
}

#[test]
fn front_matter_and_yaml_declare_their_schema() {
    assert_eq!(
        declared_schema("---\nid: x\nschema: \"oh.war/atom/v2\"\n---\nschema: oh.war/atom/v1\n", true),
        Some(("atom".to_owned(), 2))
    );
    assert_eq!(declared_schema("# title\nschema: oh.war/atom/v2\n", true), None);
    assert_eq!(
        declared_schema("kind: x\n  schema: oh.war/atom/v3\nschema: 'oh.war/milestones/v4'\n", false),
        Some(("milestones".to_owned(), 4))
    );
}

#[test]
fn record_files_declare_their_schema_by_kind() {
    assert_eq!(
        schemas_in("toml", "schema = \"oh.war/journal-event/v2\"\n[x]\ny = 1\n"),
        vec![("journal-event".to_owned(), 2)]
    );
    assert_eq!(schemas_in("toml", "schema = 3\n"), Vec::<(String, u32)>::new());
    assert_eq!(schemas_in("toml", "not = [toml"), Vec::<(String, u32)>::new());
    assert_eq!(
        schemas_in("json", "{\"schema\": \"oh.war/report/v1\", \"x\": 1}"),
        vec![("report".to_owned(), 1)]
    );
    assert_eq!(schemas_in("json", "[1]"), Vec::<(String, u32)>::new());
    assert_eq!(
        schemas_in("jsonl", "{\"v\": 1}\nnot json\n{\"v\": 3}\n{\"v\": -1}\n"),
        vec![("journal-event".to_owned(), 1), ("journal-event".to_owned(), 3)]
    );
    assert_eq!(
        schemas_in("md", "---\nschema: oh.war/adr/v1\n---\nbody\n"),
        vec![("adr".to_owned(), 1)]
    );
    assert_eq!(schemas_in("txt", "schema: oh.war/adr/v1\n"), Vec::<(String, u32)>::new());
}

#[test]
fn a_schema_must_be_a_string_and_a_version_an_unsigned_integer() {
    assert_eq!(schemas_in("json", "{\"schema\": 7}"), Vec::<(String, u32)>::new());
    assert_eq!(schemas_in("json", "\"oh.war/report/v1\""), Vec::<(String, u32)>::new());
    assert_eq!(schemas_in("jsonl", "{\"v\": \"1\"}\n{\"v\": 1.5}\n[1]\n{\"v\": 4294967296}\n{\"w\": 2, \"v\": 2}\n"), vec![("journal-event".to_owned(), 2)]);
    assert_eq!(
        schemas_in("toml", "title = \"x\"\nschema = \"oh.war/roadmap/v3\"\n"),
        vec![("roadmap".to_owned(), 3)]
    );
    assert_eq!(schemas_in("toml", "[schema]\nx = 1\n"), Vec::<(String, u32)>::new());
}

#[test]
fn the_schema_and_version_are_read_from_the_parsed_fields() {
    let f = |k: &str, v: Scalar| (k.to_owned(), v);
    let table = vec![f("title", Scalar::Text("x".to_owned())), f("schema", Scalar::Text("oh.war/roadmap/v3".to_owned()))];
    assert_eq!(toml_schema_of(&Ok(table)), Some("oh.war/roadmap/v3".to_owned()));
    assert_eq!(toml_schema_of(&Ok(vec![f("schema", Scalar::Integer(3))])), None);
    assert_eq!(toml_schema_of(&Err("expected `=`".to_owned())), None);
    let obj = |fs: Vec<(String, Scalar)>| Ok(JsonValue::Object(fs));
    assert_eq!(json_schema_of(&obj(vec![f("schema", Scalar::Text("oh.war/report/v1".to_owned()))])), Some("oh.war/report/v1".to_owned()));
    assert_eq!(json_schema_of(&obj(vec![f("schema", Scalar::Other)])), None);
    assert_eq!(json_schema_of(&Ok(JsonValue::Plain(Scalar::Text("oh.war/report/v1".to_owned())))), None);
    assert_eq!(json_version_of(&obj(vec![f("w", Scalar::Number(Some(9))), f("v", Scalar::Number(Some(2)))])), Some(2));
    assert_eq!(json_version_of(&obj(vec![f("v", Scalar::Number(None))])), None);
    assert_eq!(json_version_of(&obj(vec![f("v", Scalar::Text("1".to_owned()))])), None);
    assert_eq!(json_version_of(&Ok(JsonValue::Plain(Scalar::Number(Some(2))))), None);
    assert_eq!(json_version_of(&Err("EOF".to_owned())), None);
}
