use std::collections::HashSet;

use elucid::ingest::normalizer::Normalizer;
use elucid::ingest::schema::{
    ColumnDescriptor, ColumnType, SchemaConfig, SchemaError, TableName, TableNameError,
};

fn web_access_yaml() -> &'static str {
    r#"
table: web_access
columns:
  - name: _ts
    type: timestamp
    time: true
  - name: host
    type: utf8
  - name: method
    type: utf8
  - name: status
    type: int64
  - name: bytes
    type: int64
"#
}

fn column_type(name: &str) -> ColumnType {
    match name {
        "utf8" => ColumnType::Utf8,
        "int64" => ColumnType::Int64,
        "int32" => ColumnType::Int32,
        "uint64" => ColumnType::Uint64,
        "uint32" => ColumnType::Uint32,
        "float64" => ColumnType::Float64,
        "float32" => ColumnType::Float32,
        "bool" => ColumnType::Bool,
        "timestamp" => ColumnType::Timestamp,
        other => panic!("unknown column type {other}"),
    }
}

fn from_yaml(yaml: &str) -> Result<SchemaConfig, SchemaError> {
    let value: serde_yaml::Value = serde_yaml::from_str(yaml).expect("valid YAML");
    let columns = value["columns"]
        .as_sequence()
        .expect("columns")
        .iter()
        .map(|column| ColumnDescriptor {
            name: column["name"].as_str().expect("name").to_owned(),
            ty: column_type(column["type"].as_str().expect("type")),
            time: column.get("time").and_then(|time| time.as_bool()).unwrap_or(false),
        })
        .collect();
    let config = SchemaConfig {
        table: value["table"].as_str().expect("table").to_owned(),
        columns,
    };
    config.validate()?;
    Ok(config)
}

fn validation_errors(yaml: &str) -> Vec<String> {
    match from_yaml(yaml).expect_err("should fail") {
        SchemaError::Validation(ve) => ve.errors,
        err => panic!("expected Validation error, got {err:?}"),
    }
}

#[test]
fn parse_valid_schema() {
    let config = from_yaml(web_access_yaml()).expect("should parse");
    assert_eq!(config.table, "web_access");
    assert_eq!(config.columns.len(), 5);
    assert_eq!(config.columns[0].name, "_ts");
    assert!(config.columns[0].time);
    assert_eq!(config.columns[0].ty, ColumnType::Timestamp);
}

#[test]
fn validation_valid_schema_passes() {
    let config = from_yaml(web_access_yaml()).expect("should parse and validate");
    assert_eq!(config.table, "web_access");
}

#[test]
fn validation_no_time_column() {
    let errors = validation_errors(
        r#"
table: test
columns:
  - name: host
    type: utf8
"#,
    );
    assert!(errors.iter().any(|e| e.contains("no column marked with 'time: true'")));
}

#[test]
fn validation_multiple_time_columns() {
    let errors = validation_errors(
        r#"
table: test
columns:
  - name: ts1
    type: timestamp
    time: true
  - name: ts2
    type: timestamp
    time: true
"#,
    );
    assert!(
        errors
            .iter()
            .any(|e| e.contains("expected exactly one 'time: true' column, found 2"))
    );
    assert_eq!(
        errors,
        ["expected exactly one 'time: true' column, found 2: ts1, ts2"]
    );
}

#[test]
fn validation_at_prefixed_column() {
    let errors = validation_errors(
        r#"
table: test
columns:
  - name: "@timestamp"
    type: timestamp
    time: true
"#,
    );
    assert!(errors.iter().any(|e| e.contains("reserved for system fields")));
}

#[test]
fn validation_duplicate_names() {
    let errors = validation_errors(
        r#"
table: test
columns:
  - name: ts
    type: timestamp
    time: true
  - name: host
    type: utf8
  - name: host
    type: int64
"#,
    );
    assert!(errors.iter().any(|e| e.contains("duplicate column name 'host'")));
}

#[test]
fn validation_multiple_errors_collected() {
    let errors = validation_errors(
        r#"
table: test
columns:
  - name: host
    type: utf8
  - name: "@bad"
    type: utf8
"#,
    );
    assert!(errors.iter().any(|e| e.contains("no column marked with 'time: true'")));
    assert!(errors.iter().any(|e| e.contains("reserved for system fields")));
    assert!(
        errors.len() >= 2,
        "expected at least 2 errors, got {}",
        errors.len()
    );
}

#[test]
fn validation_rejects_invalid_table_name() {
    let errors = validation_errors(
        r#"
table: "../evil"
columns:
  - name: ts
    type: timestamp
    time: true
"#,
    );
    assert!(
        errors.iter().any(|e| e.contains("invalid table name")),
        "expected table name validation error, got: {errors:?}"
    );
}

#[test]
fn compile_web_access_schema() {
    let config = from_yaml(web_access_yaml()).expect("should parse");
    let schema = config.compile();

    let field_names: Vec<&str> = schema.fields.iter().map(|f| f.name.as_str()).collect();
    assert_eq!(
        field_names,
        &["@timestamp", "host", "method", "status", "bytes", "@rest"]
    );

    let field = |name: &str| {
        schema
            .fields
            .iter()
            .find(|field| field.name == name)
            .expect("should exist")
    };

    let ts_field = field("@timestamp");
    assert!(!ts_field.nullable);
    assert_eq!(ts_field.ty, ColumnType::Timestamp);

    let host_field = field("host");
    assert!(host_field.nullable);
    assert_eq!(host_field.ty, ColumnType::Utf8);

    let status_field = field("status");
    assert!(status_field.nullable);
    assert_eq!(status_field.ty, ColumnType::Int64);

    let rest_field = field("@rest");
    assert!(rest_field.nullable);
    assert_eq!(rest_field.ty, ColumnType::Utf8);

    assert_eq!(schema.time_source, Some("_ts".to_owned()));
}

#[test]
fn compile_all_column_types() {
    let config = from_yaml(
        r#"
table: all_types
columns:
  - name: ts
    type: timestamp
    time: true
  - name: s
    type: utf8
  - name: i64
    type: int64
  - name: i32
    type: int32
  - name: u64
    type: uint64
  - name: u32
    type: uint32
  - name: f64
    type: float64
  - name: f32
    type: float32
  - name: b
    type: bool
"#,
    )
    .expect("should parse");
    let schema = config.compile();

    let expected = &[
        ("@timestamp", ColumnType::Timestamp, false),
        ("s", ColumnType::Utf8, true),
        ("i64", ColumnType::Int64, true),
        ("i32", ColumnType::Int32, true),
        ("u64", ColumnType::Uint64, true),
        ("u32", ColumnType::Uint32, true),
        ("f64", ColumnType::Float64, true),
        ("f32", ColumnType::Float32, true),
        ("b", ColumnType::Bool, true),
        ("@rest", ColumnType::Utf8, true),
    ];

    for (i, (name, ty, nullable)) in expected.iter().enumerate() {
        let field = &schema.fields[i];
        assert_eq!(field.name, *name, "field {i}: name mismatch");
        assert_eq!(field.ty, *ty, "field {i}: type mismatch");
        assert_eq!(field.nullable, *nullable, "field {i}: nullability mismatch");
    }
    assert_eq!(schema.fields.len(), expected.len());
}

#[test]
fn validated_schemas_have_normalizers() {
    let config = from_yaml(web_access_yaml()).expect("should parse");
    assert!(Normalizer::new(config.compile()).is_ok());
}

#[test]
fn table_name_rejects_empty() {
    assert!(TableName::new("").is_err());
}

#[test]
fn table_name_rejects_slash() {
    assert!(TableName::new("foo/bar").is_err());
}

#[test]
fn table_name_rejects_backslash() {
    assert!(TableName::new("foo\\bar").is_err());
}

#[test]
fn table_name_rejects_dot_dot() {
    assert!(TableName::new("..").is_err());
}

#[test]
fn table_name_rejects_dot_dot_within() {
    assert!(TableName::new("foo..bar").is_err());
}

#[test]
fn table_name_rejects_absolute_unix() {
    assert!(TableName::new("/etc/passwd").is_err());
}

#[test]
fn table_name_rejects_absolute_windows() {
    assert!(TableName::new("\\\\server\\share").is_err());
}

#[test]
fn table_name_accepts_valid() {
    assert!(TableName::new("web_access").is_ok());
    assert!(TableName::new("my-table_v2").is_ok());
    assert!(TableName::new("table.name").is_ok());
}

#[test]
fn table_name_rejects_traversal_attempt() {
    assert!(TableName::new("../secret").is_err());
}

#[test]
fn table_name_rejects_null_bytes() {
    assert!(TableName::new("foo\0bar").is_err());
}

#[test]
fn table_name_rejects_bare_dot() {
    assert!(TableName::new(".").is_err());
}

#[test]
fn table_name_as_str_and_display() {
    let name = TableName::new("web_access").expect("valid");
    assert_eq!(name.as_str(), "web_access");
    assert_eq!(name.to_string(), "web_access");
    assert_eq!(format!("{}", name.to_string()), "web_access");
}

#[test]
fn table_name_as_ref_str() {
    let name = TableName::new("events").expect("valid");
    let s: &str = name.as_ref();
    assert_eq!(s, "events");
}

#[test]
fn table_name_clone_eq_hash() {
    let a = TableName::new("test").expect("valid");
    let b = a.clone();
    assert_eq!(a, b);
    let mut set = HashSet::new();
    set.insert(a.clone());
    assert!(set.contains(&b));
}

#[test]
fn table_name_faults_are_told_apart() {
    let fault = |name: &str| match TableName::new(name).expect_err("invalid") {
        SchemaError::InvalidTableName(fault) => fault,
        err => panic!("expected InvalidTableName, got {err:?}"),
    };
    let mut seen: Vec<TableNameError> = Vec::new();
    for name in ["", "a/b", "a..b", ".", "a\0b"] {
        let found = fault(name);
        assert!(!found.message().is_empty());
        seen.push(found);
    }
    assert_ne!(seen[0], seen[1]);
}

#[test]
fn schema_errors_list_what_is_wrong() {
    let config = SchemaConfig {
        table: "".to_owned(),
        columns: vec![ColumnDescriptor {
            name: "@a".to_owned(),
            ty: ColumnType::Utf8,
            time: false,
        }],
    };
    let error = config.validate().expect_err("an invalid schema");
    assert_eq!(
        error.to_string(),
        "Schema validation failed:\n  - invalid table name: table name must not be empty\n  \
         - no column marked with 'time: true'\n  \
         - column '@a' starts with '@', which is reserved for system fields\n"
    );
    assert_eq!(
        SchemaError::InvalidTableName(TableNameError::BareDot).to_string(),
        "invalid table name: table name must not be bare '.'"
    );
}
