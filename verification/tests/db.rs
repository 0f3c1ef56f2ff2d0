use webman::db::{
    entities_source, field_name, field_type, prefixed_type_name, rust_type, sql_character, table_type_name,
    tables_source, ColumnStructure, TableSchema,
};
use webman::entities::{Metadata, Nodes, Servers};

fn column(name: &str, column_type: &str, notnull: i64) -> ColumnStructure {
    ColumnStructure {
        cid: 0,
        name: name.to_string(),
        column_type: column_type.to_string(),
        notnull,
        dflt_value: None,
        pk: 0,
    }
}

#[test]
fn sql_character_trims_and_upper_cases() {
    assert_eq!(sql_character("  varchar "), "VARCHAR");
    assert_eq!(sql_character("Text"), "TEXT");
    assert_eq!(sql_character(""), "");
}

#[test]
fn rust_types_of_sql_types() {
    assert_eq!(rust_type("tinyint(1)"), "bool");
    assert_eq!(rust_type("tinyint(4)"), "i8");
    assert_eq!(rust_type("tinyint unsigned"), "u8");
    assert_eq!(rust_type("smallint"), "i16");
    assert_eq!(rust_type("smallint unsigned"), "u16");
    assert_eq!(rust_type("mediumint"), "i32");
    assert_eq!(rust_type("int(11) unsigned"), "u32");
    assert_eq!(rust_type("integer"), "i32");
    assert_eq!(rust_type("bigint"), "i64");
    assert_eq!(rust_type("bigint unsigned"), "u64");
    assert_eq!(rust_type("double"), "f64");
    assert_eq!(rust_type("decimal(10,2)"), "f64");
    assert_eq!(rust_type("blob"), "Vec<u8>");
    assert_eq!(rust_type("longblob"), "Vec<u8>");
    assert_eq!(rust_type("tinyblob"), "String");
    assert_eq!(rust_type("datetime"), "DateTime<Utc>");
    assert_eq!(rust_type("timestamp"), "DateTime<Utc>");
    assert_eq!(rust_type("json"), "serde_json::Value");
    assert_eq!(rust_type("varchar(50)"), "String");
}

#[test]
fn field_types_are_optional_where_null_is_allowed() {
    assert_eq!(field_type("INTEGER", 1), "i32");
    assert_eq!(field_type("INTEGER", 0), "Option<i32>");
    assert_eq!(field_type("TEXT", 0), "Option<String>");
}

#[test]
fn type_columns_become_raw_identifiers() {
    assert_eq!(field_name("type"), "r#type");
    assert_eq!(field_name("_type"), "r#type");
    assert_eq!(field_name("kind"), "kind");
}

#[test]
fn table_type_names_are_pascal_case() {
    assert_eq!(table_type_name("nodes"), "Nodes");
    assert_eq!(table_type_name("node-groups"), "NodeGroups");
    assert_eq!(table_type_name("_sqlx_migrations"), "_SqlxMigrations");
}

#[test]
fn tables_source_of_one_table() {
    let tables = vec![TableSchema {
        name: "metadata".to_string(),
        columns: vec![column("id", "INTEGER", 1), column("value", "TEXT", 0)],
    }];
    assert_eq!(
        tables_source(&tables),
        "#![allow(non_snake_case)]\n\nuse serde::{Deserialize, Serialize};\nuse chrono::{DateTime, Utc};\nuse utoipa::ToSchema;\nuse sqlx::FromRow;\n\n\
#[allow(non_snake_case)]\n#[derive(Serialize, Deserialize, ToSchema, FromRow, Clone, Default)]\npub struct Metadata {\n    pub id: i32,\n    pub value: Option<String>,\n}\n\n"
    );
}

#[test]
fn entities_source_of_one_table() {
    let tables = vec![TableSchema {
        name: "nodes".to_string(),
        columns: vec![column("node_id", "TEXT", 1), column("type", "TEXT", 1)],
    }];
    assert_eq!(
        entities_source(&tables),
        "use sea_query::Iden;\nuse serde::{ Serialize, Deserialize };\nuse strum::{EnumString, Display};\nuse enum_iterator::Sequence;\n\n\
#[derive(Ord, Eq, PartialEq, PartialOrd, Iden, Clone, Copy, Hash, Debug, Serialize, Deserialize, EnumString, Display, Sequence)]\n#[serde(rename_all = \"snake_case\")]\n#[strum(serialize_all = \"snake_case\")]\npub enum Nodes {\n    Table,\n    NodeId,\n    #[iden = \"type\"]\n    Type,\n}\n\n\n"
    );
}

#[test]
fn entity_names() {
    assert_eq!(Nodes::Table.name(), "nodes");
    assert_eq!(Nodes::RemoteHomeDir.name(), "remote_home_dir");
    assert_eq!(Servers::KeyPath.name(), "key_path");
    assert_eq!(Metadata::Property.name(), "property");
}

#[test]
fn prefixed_type_names_keep_a_leading_underscore() {
    assert_eq!(prefixed_type_name("_sqlx_migrations", "SqlxMigrations"), "_SqlxMigrations");
    assert_eq!(prefixed_type_name("node-groups", "NodeGroups"), "NodeGroups");
    assert_eq!(prefixed_type_name("", "X"), "X");
}
