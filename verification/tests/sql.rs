use indexmap::IndexMap;
use webman::crud::select_sql_text;
use webman::db::{add_column_sql, column_names_sql, drop_table_sql, last_key_sql, rows_with_value_sql, table_info_sql, tables_query};

fn defs(pairs: &[(&str, &str)]) -> IndexMap<String, String> {
    pairs.iter().map(|(k, v)| (k.to_string(), v.to_string())).collect()
}

#[test]
fn arguments_are_put_in_place_of_placeholders() {
    assert_eq!(
        select_sql_text("SELECT * FROM `nodes` WHERE `node_id` = ? AND `active` = ?", vec!["'n1'".into(), "1".into()]),
        Some("SELECT * FROM `nodes` WHERE `node_id` = 'n1' AND `active` = 1".to_string())
    );
    assert_eq!(select_sql_text("SELECT 1", vec![]), Some("SELECT ".to_string()));
    assert_eq!(select_sql_text("SELECT 10", vec![]), Some("SELECT 10".to_string()));
    assert_eq!(select_sql_text("SELECT ? , ?", vec!["1".into()]), None);
}

#[test]
fn add_column_statements() {
    assert_eq!(add_column_sql("note", "nodes", &defs(&[])), "ALTER TABLE nodes ADD `note` VARCHAR(50)   ");
    assert_eq!(
        add_column_sql("bio", "users", &defs(&[("type", "text"), ("after", "name")])),
        "ALTER TABLE users ADD `bio` text   AFTER `name`"
    );
    assert_eq!(
        add_column_sql("age", "users", &defs(&[("type", "INT"), ("length", "11"), ("default", "0")])),
        "ALTER TABLE users ADD `age` INT(11)  DEFAULT 0 "
    );
}

#[test]
fn catalogue_queries() {
    assert_eq!(drop_table_sql("t"), "DROP TABLE `t`");
    assert_eq!(table_info_sql("t"), "PRAGMA table_info(`t`)");
    assert_eq!(column_names_sql("t"), "SELECT name FROM pragma_table_info('t') ORDER BY cid");
    assert_eq!(rows_with_value_sql("nodes", "node_id"), "SELECT * FROM `nodes` WHERE `node_id` = ?");
    assert_eq!(last_key_sql("nodes", "id"), "SELECT id FROM `nodes` ORDER BY id DESC");
    assert!(tables_query().starts_with("SELECT name FROM sqlite_master"));
}
