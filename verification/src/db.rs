//! The configuration database: its rows, the names of its tables and
//! columns, and the Rust sources generated from its schema.
use vstd::prelude::*;
use convert_case::{Case, Casing};
use crate::text::{
    trim, starts_with, contains_seq, lowercase, uppercase, concat, chars_of, string_from,
    trim_chars, has_prefix, has_infix, same_chars, to_lowercase, to_uppercase, extend, extend_str,
};

verus! {

/// A column as SQLite's `PRAGMA table_info` describes it.
#[derive(Clone, Debug)]
pub struct ColumnStructure {
    pub cid: i64,
    pub name: String,
    pub column_type: String,
    pub notnull: i64,
    pub dflt_value: Option<String>,
    pub pk: i64,
}

/// Whether random values are drawn from digits or from letters and digits.
#[derive(PartialEq, Eq, Structural)]
pub enum RandomFromDbContext {
    Digits,
    Characters,
}

/// The SQL function `LENGTH`.
pub struct Length;

/// Where a database server is reached.
pub struct DbConnectionParams {
    pub user: String,
    pub password: String,
    pub host: String,
    pub port: String,
    pub name: String,
}

/// A table of the database with its columns, in column order.
pub struct TableSchema {
    pub name: String,
    pub columns: Vec<ColumnStructure>,
}

/// What `convert_case` makes of `s` with `Case::Pascal`: its words, each
/// capitalized, run together.
pub uninterp spec fn pascal_case(s: Seq<char>) -> Seq<char>;

/// Calls `Casing::to_case(Case::Pascal)` of `convert_case`. Claimed: the
/// result is the named `pascal_case` of the argument; how words are found
/// rests on the crate's boundary rules, which are not stated here.
#[verifier::external_body]
pub(crate) fn to_pascal_case(s: &str) -> (r: String)
    ensures
        r@ == pascal_case(s@),
{
    s.to_case(Case::Pascal)
}

/// An SQL keyword or type written as the database spells it: trimmed and
/// in upper case.
pub fn sql_character(character: &str) -> (r: String)
    ensures
        r@ == uppercase(trim(character@)),
{
    let t = string_from(&trim_chars(&chars_of(character)));
    to_uppercase(t.as_str())
}

/// `s` with every dash made an underscore.
pub open spec fn dash_to_underscore(s: Seq<char>) -> Seq<char> {
    s.map_values(|c: char| if c == '-' { '_' } else { c })
}

/// `s` with every dash made an underscore.
pub fn replace_dashes(s: &str) -> (r: String)
    ensures
        r@ == dash_to_underscore(s@),
{
    let cs = chars_of(s);
    let mut out: Vec<char> = Vec::new();
    let mut i: usize = 0;
    while i < cs.len()
        invariant
            i <= cs.len(),
            cs@ == s@,
            out@ == dash_to_underscore(cs@.take(i as int)),
        decreases cs.len() - i,
    {
        let c = cs[i];
        out.push(if c == '-' { '_' } else { c });
        proof {
            assert(dash_to_underscore(cs@.take(i + 1)) =~= dash_to_underscore(cs@.take(i as int)).push(
                if c == '-' { '_' } else { c },
            ));
        }
        i = i + 1;
    }
    proof {
        assert(cs@.take(cs.len() as int) =~= cs@);
    }
    string_from(&out)
}

/// The name of the type generated for a table: the table name in Pascal
/// case, dashes read as underscores, with a leading underscore kept.
pub open spec fn generated_type_name(table: Seq<char>) -> Seq<char> {
    prefixed_name(table, pascal_case(dash_to_underscore(table)))
}

/// `base`, with an underscore in front where the table name starts with one.
pub open spec fn prefixed_name(table: Seq<char>, base: Seq<char>) -> Seq<char> {
    if starts_with(table, seq!['_']) {
        seq!['_'] + base
    } else {
        base
    }
}

/// The name of the type generated for a table.
pub fn table_type_name(table: &str) -> (r: String)
    ensures
        r@ == generated_type_name(table@),
{
    let replaced = replace_dashes(table);
    let base = to_pascal_case(replaced.as_str());
    prefixed_type_name(table, base.as_str())
}

/// The name of the type generated for `table`, from `base`, the Pascal-case
/// form of its name: a leading underscore of the table name is kept.
pub fn prefixed_type_name(table: &str, base: &str) -> (r: String)
    ensures
        r@ == prefixed_name(table@, base@),
{
    let cs = chars_of(table);
    if cs.len() > 0 && cs[0] == '_' {
        let mut out = "_".to_owned();
        proof {
            reveal_strlit("_");
        }
        out.append(base);
        proof {
            assert(cs@.take(1) =~= seq!['_']);
            assert(out@ =~= seq!['_'] + base@);
        }
        out
    } else {
        proof {
            if cs@.len() > 0 {
                assert(cs@.take(1)[0] != '_');
            }
        }
        base.to_owned()
    }
}

/// The Rust type of a column whose SQL type, in lower case, is `t`.
pub open spec fn rust_type_for(t: Seq<char>) -> Seq<char> {
    let unsigned = contains_seq(t, "unsigned"@);
    if t == "tinyint(1)"@ {
        "bool"@
    } else if starts_with(t, "tinyint"@) {
        if unsigned {
            "u8"@
        } else {
            "i8"@
        }
    } else if starts_with(t, "smallint"@) {
        if unsigned {
            "u16"@
        } else {
            "i16"@
        }
    } else if starts_with(t, "mediumint"@) {
        if unsigned {
            "u32"@
        } else {
            "i32"@
        }
    } else if starts_with(t, "int"@) {
        if unsigned {
            "u32"@
        } else {
            "i32"@
        }
    } else if starts_with(t, "bigint"@) {
        if unsigned {
            "u64"@
        } else {
            "i64"@
        }
    } else if starts_with(t, "float"@) || starts_with(t, "double"@) || starts_with(t, "decimal"@) {
        "f64"@
    } else if t == "blob"@ || t == "mediumblob"@ || t == "longblob"@ {
        "Vec<u8>"@
    } else if t == "datetime"@ || t == "timestamp"@ {
        "DateTime<Utc>"@
    } else if t == "json"@ {
        "serde_json::Value"@
    } else {
        "String"@
    }
}

/// The type of the field generated for a column: the Rust type of its SQL
/// type, in an `Option` where the column may be null.
pub open spec fn field_type_for(sql_type: Seq<char>, notnull: i64) -> Seq<char> {
    let t = rust_type_for(lowercase(sql_type));
    if notnull == 0 {
        "Option<"@ + t + ">"@
    } else {
        t
    }
}

fn lit(s: &str) -> (r: Vec<char>)
    ensures
        r@ == s@,
{
    chars_of(s)
}

/// The Rust type of a column whose SQL type, in lower case, is `t`.
pub fn rust_type(t: &str) -> (r: String)
    ensures
        r@ == rust_type_for(t@),
{
    let cs = chars_of(t);
    let unsigned = has_infix(&cs, &lit("unsigned"));
    let name = if same_chars(&cs, &lit("tinyint(1)")) {
        "bool"
    } else if has_prefix(&cs, &lit("tinyint")) {
        if unsigned {
            "u8"
        } else {
            "i8"
        }
    } else if has_prefix(&cs, &lit("smallint")) {
        if unsigned {
            "u16"
        } else {
            "i16"
        }
    } else if has_prefix(&cs, &lit("mediumint")) {
        if unsigned {
            "u32"
        } else {
            "i32"
        }
    } else if has_prefix(&cs, &lit("int")) {
        if unsigned {
            "u32"
        } else {
            "i32"
        }
    } else if has_prefix(&cs, &lit("bigint")) {
        if unsigned {
            "u64"
        } else {
            "i64"
        }
    } else if has_prefix(&cs, &lit("float")) || has_prefix(&cs, &lit("double")) || has_prefix(
        &cs,
        &lit("decimal"),
    ) {
        "f64"
    } else if same_chars(&cs, &lit("blob")) || same_chars(&cs, &lit("mediumblob")) || same_chars(
        &cs,
        &lit("longblob"),
    ) {
        "Vec<u8>"
    } else if same_chars(&cs, &lit("datetime")) || same_chars(&cs, &lit("timestamp")) {
        "DateTime<Utc>"
    } else if same_chars(&cs, &lit("json")) {
        "serde_json::Value"
    } else {
        "String"
    };
    name.to_owned()
}

/// The type of the field generated for a column.
pub fn field_type(sql_type: &str, notnull: i64) -> (r: String)
    ensures
        r@ == field_type_for(sql_type@, notnull),
{
    let lower = to_lowercase(sql_type);
    let t = rust_type(lower.as_str());
    if notnull == 0 {
        let mut out = "Option<".to_owned();
        out.append(t.as_str());
        out.append(">");
        out
    } else {
        t
    }
}

/// The name of the field generated for a column: `type` and `_type`
/// become the raw identifier `r#type`.
pub open spec fn field_name_for(column: Seq<char>) -> Seq<char> {
    if column == "type"@ || column == "_type"@ {
        "r#type"@
    } else {
        column
    }
}

/// The name of the field generated for a column.
pub fn field_name(column: &str) -> (r: String)
    ensures
        r@ == field_name_for(column@),
{
    let cs = chars_of(column);
    if same_chars(&cs, &lit("type")) || same_chars(&cs, &lit("_type")) {
        "r#type".to_owned()
    } else {
        column.to_owned()
    }
}

/// The line that declares the field of a column.
pub open spec fn field_line(c: ColumnStructure) -> Seq<char> {
    "    pub "@ + field_name_for(c.name@) + ": "@ + field_type_for(c.column_type@, c.notnull)
        + ",\n"@
}

/// The field lines of the first `k` columns.
pub open spec fn field_lines(cols: Seq<ColumnStructure>, k: int) -> Seq<char>
    decreases k,
{
    if k <= 0 {
        Seq::empty()
    } else {
        field_lines(cols, k - 1) + field_line(cols[k - 1])
    }
}

/// The struct generated for a table.
pub open spec fn model_def(t: TableSchema) -> Seq<char> {
    "#[allow(non_snake_case)]\n"@ + "#[derive(Serialize, Deserialize, ToSchema, FromRow, Clone, Default)]\n"@
        + "pub struct "@ + generated_type_name(t.name@) + " {\n"@ + field_lines(t.columns@, t.columns@.len() as int)
        + "}\n\n"@
}

/// The opening of the generated table sources.
pub open spec fn tables_header() -> Seq<char> {
    "#![allow(non_snake_case)]\n\n"@ + "use serde::{Deserialize, Serialize};\n"@
        + "use chrono::{DateTime, Utc};\n"@ + "use utoipa::ToSchema;\n"@ + "use sqlx::FromRow;\n\n"@
}

/// The structs generated for the first `k` tables.
pub open spec fn model_defs(ts: Seq<TableSchema>, k: int) -> Seq<char>
    decreases k,
{
    if k <= 0 {
        Seq::empty()
    } else {
        model_defs(ts, k - 1) + model_def(ts[k - 1])
    }
}

/// The struct generated for a table.
pub fn table_model(t: &TableSchema) -> (r: Vec<char>)
    ensures
        r@ == model_def(*t),
{
    let mut out: Vec<char> = Vec::new();
    extend_str(&mut out, "#[allow(non_snake_case)]\n");
    extend_str(&mut out, "#[derive(Serialize, Deserialize, ToSchema, FromRow, Clone, Default)]\n");
    extend_str(&mut out, "pub struct ");
    let name = table_type_name(t.name.as_str());
    extend_str(&mut out, name.as_str());
    extend_str(&mut out, " {\n");
    let ghost head = out@;
    let mut i: usize = 0;
    while i < t.columns.len()
        invariant
            i <= t.columns.len(),
            out@ == head + field_lines(t.columns@, i as int),
        decreases t.columns.len() - i,
    {
        let c = &t.columns[i];
        extend_str(&mut out, "    pub ");
        let fname = field_name(c.name.as_str());
        extend_str(&mut out, fname.as_str());
        extend_str(&mut out, ": ");
        let ftype = field_type(c.column_type.as_str(), c.notnull);
        extend_str(&mut out, ftype.as_str());
        extend_str(&mut out, ",\n");
        proof {
            assert(out@ =~= head + field_lines(t.columns@, i + 1));
        }
        i = i + 1;
    }
    extend_str(&mut out, "}\n\n");
    proof {
        assert(out@ =~= model_def(*t));
    }
    out
}

/// The Rust source of the row types of the given tables.
pub fn tables_source(tables: &Vec<TableSchema>) -> (r: String)
    ensures
        r@ == tables_header() + model_defs(tables@, tables@.len() as int),
{
    let mut out: Vec<char> = Vec::new();
    extend_str(&mut out, "#![allow(non_snake_case)]\n\n");
    extend_str(&mut out, "use serde::{Deserialize, Serialize};\n");
    extend_str(&mut out, "use chrono::{DateTime, Utc};\n");
    extend_str(&mut out, "use utoipa::ToSchema;\n");
    extend_str(&mut out, "use sqlx::FromRow;\n\n");
    proof {
        assert(out@ =~= tables_header());
    }
    let mut i: usize = 0;
    while i < tables.len()
        invariant
            i <= tables.len(),
            out@ == tables_header() + model_defs(tables@, i as int),
        decreases tables.len() - i,
    {
        let m = table_model(&tables[i]);
        extend(&mut out, &m);
        proof {
            assert(out@ =~= tables_header() + model_defs(tables@, i + 1));
        }
        i = i + 1;
    }
    string_from(&out)
}

/// The name of the variant generated for a column: the column name in
/// Pascal case, dashes read as underscores.
pub open spec fn variant_name(column: Seq<char>) -> Seq<char> {
    pascal_case(dash_to_underscore(column))
}

/// The lines of the variant generated for a column: the column named
/// `type` gets an `iden` attribute first.
pub open spec fn variant_lines(column: Seq<char>) -> Seq<char> {
    (if column == "type"@ {
        "    #[iden = \"type\"]\n"@
    } else {
        Seq::empty()
    }) + "    "@ + variant_name(column) + ",\n"@
}

/// The variant lines of the first `k` columns.
pub open spec fn variants(cols: Seq<ColumnStructure>, k: int) -> Seq<char>
    decreases k,
{
    if k <= 0 {
        Seq::empty()
    } else {
        variants(cols, k - 1) + variant_lines(cols[k - 1].name@)
    }
}

/// The enum generated for a table.
pub open spec fn entity_def(t: TableSchema) -> Seq<char> {
    "#[derive(Ord, Eq, PartialEq, PartialOrd, Iden, Clone, Copy, Hash, Debug, Serialize, Deserialize, EnumString, Display, Sequence)]\n"@
        + "#[serde(rename_all = \"snake_case\")]\n"@ + "#[strum(serialize_all = \"snake_case\")]\n"@
        + "pub enum "@ + generated_type_name(t.name@) + " {\n"@ + "    Table,\n"@ + variants(
        t.columns@,
        t.columns@.len() as int,
    ) + "}\n\n\n"@
}

/// The opening of the generated entity sources.
pub open spec fn entities_header() -> Seq<char> {
    "use sea_query::Iden;\n"@ + "use serde::{ Serialize, Deserialize };\n"@
        + "use strum::{EnumString, Display};\n"@ + "use enum_iterator::Sequence;\n\n"@
}

/// The enums generated for the first `k` tables.
pub open spec fn entity_defs(ts: Seq<TableSchema>, k: int) -> Seq<char>
    decreases k,
{
    if k <= 0 {
        Seq::empty()
    } else {
        entity_defs(ts, k - 1) + entity_def(ts[k - 1])
    }
}

/// The enum generated for a table.
pub fn table_entity(t: &TableSchema) -> (r: Vec<char>)
    ensures
        r@ == entity_def(*t),
{
    let mut out: Vec<char> = Vec::new();
    extend_str(
        &mut out,
        "#[derive(Ord, Eq, PartialEq, PartialOrd, Iden, Clone, Copy, Hash, Debug, Serialize, Deserialize, EnumString, Display, Sequence)]\n",
    );
    extend_str(&mut out, "#[serde(rename_all = \"snake_case\")]\n");
    extend_str(&mut out, "#[strum(serialize_all = \"snake_case\")]\n");
    extend_str(&mut out, "pub enum ");
    let name = table_type_name(t.name.as_str());
    extend_str(&mut out, name.as_str());
    extend_str(&mut out, " {\n");
    extend_str(&mut out, "    Table,\n");
    let ghost head = out@;
    let mut i: usize = 0;
    while i < t.columns.len()
        invariant
            i <= t.columns.len(),
            out@ == head + variants(t.columns@, i as int),
        decreases t.columns.len() - i,
    {
        let column = &t.columns[i].name;
        let ghost before = out@;
        if str_is(column.as_str(), "type") {
            extend_str(&mut out, "    #[iden = \"type\"]\n");
        }
        extend_str(&mut out, "    ");
        let replaced = replace_dashes(column.as_str());
        let vname = to_pascal_case(replaced.as_str());
        extend_str(&mut out, vname.as_str());
        extend_str(&mut out, ",\n");
        proof {
            assert(out@ =~= before + variant_lines(column@));
            assert(out@ =~= head + variants(t.columns@, i + 1));
        }
        i = i + 1;
    }
    extend_str(&mut out, "}\n\n\n");
    proof {
        assert(out@ =~= entity_def(*t));
    }
    out
}

/// Whether `a` is the text `b`.
fn str_is(a: &str, b: &str) -> (r: bool)
    ensures
        r == (a@ == b@),
{
    same_chars(&chars_of(a), &chars_of(b))
}

/// The Rust source of the column enums of the given tables.
pub fn entities_source(tables: &Vec<TableSchema>) -> (r: String)
    ensures
        r@ == entities_header() + entity_defs(tables@, tables@.len() as int),
{
    let mut out: Vec<char> = Vec::new();
    extend_str(&mut out, "use sea_query::Iden;\n");
    extend_str(&mut out, "use serde::{ Serialize, Deserialize };\n");
    extend_str(&mut out, "use strum::{EnumString, Display};\n");
    extend_str(&mut out, "use enum_iterator::Sequence;\n\n");
    proof {
        assert(out@ =~= entities_header());
    }
    let mut i: usize = 0;
    while i < tables.len()
        invariant
            i <= tables.len(),
            out@ == entities_header() + entity_defs(tables@, i as int),
        decreases tables.len() - i,
    {
        let m = table_entity(&tables[i]);
        extend(&mut out, &m);
        proof {
            assert(out@ =~= entities_header() + entity_defs(tables@, i + 1));
        }
        i = i + 1;
    }
    string_from(&out)
}

} // verus!

verus! {

/// An optional text, or `default` where there is none.
pub open spec fn or_default(o: Option<Seq<char>>, default: Seq<char>) -> Seq<char> {
    match o {
        Some(v) => v,
        None => default,
    }
}

/// The statement that adds a column, built from its definition: its
/// `type` (VARCHAR unless given) with its `length` (50 unless given) in
/// brackets, except that text, JSON and blob types stand alone; then,
/// where given, its `default` and the column it comes `after`. A column
/// is always nullable.
pub open spec fn add_column_spec(column: Seq<char>, table: Seq<char>, defs: Seq<(Seq<char>, Seq<char>)>) -> Seq<char> {
    let t = or_default(crate::index_map::lookup(defs, "type"@), "VARCHAR"@);
    let len = or_default(crate::index_map::lookup(defs, "length"@), "50"@);
    let sql_type = uppercase(trim(t));
    let ty = if contains_seq(sql_type, "TEXT"@) || contains_seq(sql_type, "JSON"@) || contains_seq(sql_type, "BLOB"@) {
        t
    } else {
        t + "("@ + len + ")"@
    };
    let default = match crate::index_map::lookup(defs, "default"@) {
        Some(d) => "DEFAULT "@ + d,
        None => Seq::empty(),
    };
    let after = match crate::index_map::lookup(defs, "after"@) {
        Some(a) => "AFTER `"@ + a + "`"@,
        None => Seq::empty(),
    };
    "ALTER TABLE "@ + table + " ADD `"@ + column + "` "@ + ty + "  "@ + default + " "@ + after
}

/// The statement that adds the column `column` to `table`, as the
/// definition `column_definitions` describes it.
pub fn add_column_sql(column: &str, table: &str, column_definitions: &indexmap::IndexMap<String, String>) -> (r: String)
    ensures
        r@ == add_column_spec(column@, table@, crate::index_map::string_map_entries(*column_definitions)),
{
    let t = match crate::index_map::string_map_get(column_definitions, "type") {
        Some(v) => v,
        None => "VARCHAR".to_owned(),
    };
    let len = match crate::index_map::string_map_get(column_definitions, "length") {
        Some(v) => v,
        None => "50".to_owned(),
    };
    let sql_type = sql_character(t.as_str());
    let st = chars_of(sql_type.as_str());
    let stands_alone = has_infix(&st, &lit("TEXT")) || has_infix(&st, &lit("JSON")) || has_infix(&st, &lit("BLOB"));
    let mut ty = t.clone();
    if !stands_alone {
        ty.append("(");
        ty.append(len.as_str());
        ty.append(")");
    }
    let mut r = "ALTER TABLE ".to_owned();
    r.append(table);
    r.append(" ADD `");
    r.append(column);
    r.append("` ");
    r.append(ty.as_str());
    r.append("  ");
    match crate::index_map::string_map_get(column_definitions, "default") {
        Some(d) => {
            r.append("DEFAULT ");
            r.append(d.as_str());
        },
        None => {},
    }
    r.append(" ");
    match crate::index_map::string_map_get(column_definitions, "after") {
        Some(a) => {
            r.append("AFTER `");
            r.append(a.as_str());
            r.append("`");
        },
        None => {},
    }
    r
}

/// The query that lists the tables of the database.
pub fn tables_query() -> (r: &'static str)
    ensures
        r@ == "SELECT name FROM sqlite_master WHERE type = 'table' AND name NOT LIKE 'sqlite_%' ORDER BY name"@,
{
    "SELECT name FROM sqlite_master WHERE type = 'table' AND name NOT LIKE 'sqlite_%' ORDER BY name"
}

/// The statement that drops a table.
pub fn drop_table_sql(table: &str) -> (r: String)
    ensures
        r@ == "DROP TABLE `"@ + table@ + "`"@,
{
    let mut r = "DROP TABLE `".to_owned();
    r.append(table);
    r.append("`");
    r
}

/// The query that describes the columns of a table.
pub fn table_info_sql(table: &str) -> (r: String)
    ensures
        r@ == "PRAGMA table_info(`"@ + table@ + "`)"@,
{
    let mut r = "PRAGMA table_info(`".to_owned();
    r.append(table);
    r.append("`)");
    r
}

/// The query that lists the column names of a table in column order.
pub fn column_names_sql(table: &str) -> (r: String)
    ensures
        r@ == "SELECT name FROM pragma_table_info('"@ + table@ + "') ORDER BY cid"@,
{
    let mut r = "SELECT name FROM pragma_table_info('".to_owned();
    r.append(table);
    r.append("') ORDER BY cid");
    r
}

/// The query that finds the rows whose `column` holds a given value.
pub fn rows_with_value_sql(table: &str, column: &str) -> (r: String)
    ensures
        r@ == "SELECT * FROM `"@ + table@ + "` WHERE `"@ + column@ + "` = ?"@,
{
    let mut r = "SELECT * FROM `".to_owned();
    r.append(table);
    r.append("` WHERE `");
    r.append(column);
    r.append("` = ?");
    r
}

/// The query that reads the largest `key` of a table first.
pub fn last_key_sql(table: &str, key: &str) -> (r: String)
    ensures
        r@ == "SELECT "@ + key@ + " FROM `"@ + table@ + "` ORDER BY "@ + key@ + " DESC"@,
{
    let mut r = "SELECT ".to_owned();
    r.append(key);
    r.append(" FROM `");
    r.append(table);
    r.append("` ORDER BY ");
    r.append(key);
    r.append(" DESC");
    r
}

/// A text, JSON or blob column type is written as given, with nothing
/// after it but the spaces before the default; any other type is followed
/// directly by its length in brackets.
pub proof fn law_add_column_type_and_length(
    column: Seq<char>,
    table: Seq<char>,
    defs: Seq<(Seq<char>, Seq<char>)>,
)
    ensures
        ({
            let t = or_default(crate::index_map::lookup(defs, "type"@), "VARCHAR"@);
            let len = or_default(crate::index_map::lookup(defs, "length"@), "50"@);
            let up = uppercase(trim(t));
            let head = "ALTER TABLE "@ + table + " ADD `"@ + column + "` "@;
            let r = add_column_spec(column, table, defs);
            &&& (contains_seq(up, "TEXT"@) || contains_seq(up, "JSON"@) || contains_seq(up, "BLOB"@))
                ==> (head + t + "  "@).is_prefix_of(r)
            &&& !(contains_seq(up, "TEXT"@) || contains_seq(up, "JSON"@) || contains_seq(up, "BLOB"@))
                ==> (head + t + "("@ + len + ")  "@).is_prefix_of(r)
        }),
{
    let t = or_default(crate::index_map::lookup(defs, "type"@), "VARCHAR"@);
    let len = or_default(crate::index_map::lookup(defs, "length"@), "50"@);
    let up = uppercase(trim(t));
    let head = "ALTER TABLE "@ + table + " ADD `"@ + column + "` "@;
    let r = add_column_spec(column, table, defs);
    let default = match crate::index_map::lookup(defs, "default"@) {
        Some(d) => "DEFAULT "@ + d,
        None => Seq::empty(),
    };
    let after = match crate::index_map::lookup(defs, "after"@) {
        Some(a) => "AFTER `"@ + a + "`"@,
        None => Seq::empty(),
    };
    let rest = default + " "@ + after;
    if contains_seq(up, "TEXT"@) || contains_seq(up, "JSON"@) || contains_seq(up, "BLOB"@) {
        let p = head + t + "  "@;
        assert(r == head + t + "  "@ + default + " "@ + after);
        assert(default + " "@ + after =~= default + (" "@ + after));
        assert(p + default + " "@ + after =~= p + (default + (" "@ + after)));
        assert(r =~= p + rest);
        assert(p =~= r.subrange(0, p.len() as int));
    } else {
        let p = head + t + "("@ + len + ")  "@;
        reveal_strlit(")  ");
        reveal_strlit(")");
        reveal_strlit("  ");
        let ty = t + "("@ + len + ")"@;
        assert(r == head + ty + "  "@ + default + " "@ + after);
        assert(ty + "  "@ =~= t + "("@ + len + ")  "@);
        assert(head + ty + "  "@ =~= p);
        assert(p + default + " "@ + after =~= p + (default + (" "@ + after)));
        assert(default + " "@ + after =~= default + (" "@ + after));
        assert(r =~= p + rest);
        assert(p =~= r.subrange(0, p.len() as int));
    }
}

/// The width in bits of the SQL integer type that the lower-case type `t`
/// names, as MySQL documents them (`tinyint` 1 byte, `smallint` 2,
/// `mediumint` 3, `int` 4, `bigint` 8); 0 where it names none of them.
pub open spec fn sql_int_bits(t: Seq<char>) -> int {
    if starts_with(t, "tinyint"@) {
        8
    } else if starts_with(t, "smallint"@) {
        16
    } else if starts_with(t, "mediumint"@) {
        24
    } else if starts_with(t, "int"@) {
        32
    } else if starts_with(t, "bigint"@) {
        64
    } else {
        0
    }
}

/// The width in bits of the Rust integer type named `r`, and whether it is
/// signed; a width of 0 where `r` names no Rust integer type.
pub open spec fn rust_int_width(r: Seq<char>) -> (int, bool) {
    if r == "i8"@ {
        (8, true)
    } else if r == "u8"@ {
        (8, false)
    } else if r == "i16"@ {
        (16, true)
    } else if r == "u16"@ {
        (16, false)
    } else if r == "i32"@ {
        (32, true)
    } else if r == "u32"@ {
        (32, false)
    } else if r == "i64"@ {
        (64, true)
    } else if r == "u64"@ {
        (64, false)
    } else {
        (0, false)
    }
}

/// An SQL integer column (other than `tinyint(1)`, a flag) gets the
/// narrowest Rust integer type that holds all its values: signed unless
/// the column is `unsigned`, at least as wide as the column, and less than
/// twice as wide.
pub proof fn law_rust_type_holds_integer_column(t: Seq<char>)
    requires
        sql_int_bits(t) > 0,
        t != "tinyint(1)"@,
    ensures
        rust_int_width(rust_type_for(t)).0 >= sql_int_bits(t),
        rust_int_width(rust_type_for(t)).0 < 2 * sql_int_bits(t),
        rust_int_width(rust_type_for(t)).1 == !contains_seq(t, "unsigned"@),
{
    reveal_strlit("i8");
    reveal_strlit("u8");
    reveal_strlit("i16");
    reveal_strlit("u16");
    reveal_strlit("i32");
    reveal_strlit("u32");
    reveal_strlit("i64");
    reveal_strlit("u64");
    assert("i8"@[0] != "u8"@[0]);
    assert("i16"@[0] != "u16"@[0]);
    assert("i32"@[0] != "u32"@[0]);
    assert("i64"@[0] != "u64"@[0]);
    assert("i8"@.len() != "i16"@.len());
    assert("i16"@[1] != "i32"@[1] && "i16"@[1] != "i64"@[1] && "i32"@[1] != "i64"@[1]);
    let r = rust_type_for(t);
    let u = contains_seq(t, "unsigned"@);
    assert(rust_int_width("i8"@) == (8int, true));
    assert(rust_int_width("u8"@) == (8int, false));
    assert(rust_int_width("i16"@) == (16int, true));
    assert(rust_int_width("u16"@) == (16int, false)) by {
        assert("u16"@.len() != "i8"@.len());
        assert("u16"@[0] != "i16"@[0]);
    }
    assert(rust_int_width("i32"@) == (32int, true)) by {
        assert("i32"@[1] != "u16"@[1]);
    }
    assert(rust_int_width("u32"@) == (32int, false)) by {
        assert("u32"@[1] != "u16"@[1]);
        assert("u32"@[0] != "i32"@[0]);
    }
    assert(rust_int_width("i64"@) == (64int, true)) by {
        assert("i64"@[1] != "u16"@[1]);
        assert("i64"@[1] != "u32"@[1]);
    }
    assert(rust_int_width("u64"@) == (64int, false)) by {
        assert("u64"@[1] != "u16"@[1]);
        assert("u64"@[1] != "u32"@[1]);
        assert("u64"@[0] != "i64"@[0]);
    }
    if starts_with(t, "tinyint"@) {
        assert(r == if u { "u8"@ } else { "i8"@ });
    } else if starts_with(t, "smallint"@) {
        assert(r == if u { "u16"@ } else { "i16"@ });
    } else if starts_with(t, "mediumint"@) {
        assert(r == if u { "u32"@ } else { "i32"@ });
    } else if starts_with(t, "int"@) {
        assert(r == if u { "u32"@ } else { "i32"@ });
    } else {
        assert(r == if u { "u64"@ } else { "i64"@ });
    }
}

/// The statement ends with the column it comes after, in backticks,
/// where one is given, and with a space where none is; a given default
/// stands, after `DEFAULT`, between the type and the rest.
pub proof fn law_add_column_default_and_after(
    column: Seq<char>,
    table: Seq<char>,
    defs: Seq<(Seq<char>, Seq<char>)>,
)
    ensures
        ({
            let r = add_column_spec(column, table, defs);
            &&& (crate::index_map::lookup(defs, "after"@) matches Some(a) ==> ("AFTER `"@ + a + "`"@).is_suffix_of(r))
            &&& (crate::index_map::lookup(defs, "after"@) is None ==> r.len() > 0 && r.last() == ' ')
            &&& (crate::index_map::lookup(defs, "default"@) matches Some(d) ==> contains_seq(
                r,
                "  "@ + "DEFAULT "@ + d + " "@,
            ))
        }),
{
    reveal_strlit(" ");
    let r = add_column_spec(column, table, defs);
    let t = or_default(crate::index_map::lookup(defs, "type"@), "VARCHAR"@);
    let len = or_default(crate::index_map::lookup(defs, "length"@), "50"@);
    let sql_type = uppercase(trim(t));
    let ty = if contains_seq(sql_type, "TEXT"@) || contains_seq(sql_type, "JSON"@) || contains_seq(
        sql_type,
        "BLOB"@,
    ) {
        t
    } else {
        t + "("@ + len + ")"@
    };
    let head = "ALTER TABLE "@ + table + " ADD `"@ + column + "` "@ + ty;
    let default = match crate::index_map::lookup(defs, "default"@) {
        Some(d) => "DEFAULT "@ + d,
        None => Seq::empty(),
    };
    let after = match crate::index_map::lookup(defs, "after"@) {
        Some(a) => "AFTER `"@ + a + "`"@,
        None => Seq::empty(),
    };
    assert(r == head + "  "@ + default + " "@ + after);
    let front = head + "  "@ + default + " "@;
    assert(after =~= r.subrange(r.len() - after.len(), r.len() as int));
    if after.len() == 0 {
        assert(r =~= front);
        assert(r.last() == " "@[0]);
    }
    if let Some(d) = crate::index_map::lookup(defs, "default"@) {
        let m = "  "@ + "DEFAULT "@ + d + " "@;
        assert(r =~= head + m + after);
        assert(r.subrange(head.len() as int, (head.len() + m.len()) as int) =~= m);
    }
}

/// The Rust types of the columns that are not integers: a `tinyint(1)`
/// is a flag, floating and decimal types are `f64`, blobs are bytes, dates
/// and times are UTC date-times, JSON is a JSON value and anything else a
/// string; and a column that may be null gets an `Option` of its type.
pub proof fn law_rust_type_other_columns(t: Seq<char>, sql_type: Seq<char>, notnull: i64)
    ensures
        t == "tinyint(1)"@ ==> rust_type_for(t) == "bool"@,
        sql_int_bits(t) == 0 && (starts_with(t, "float"@) || starts_with(t, "double"@) || starts_with(
            t,
            "decimal"@,
        )) ==> rust_type_for(t) == "f64"@,
        sql_int_bits(t) == 0 && (t == "blob"@ || t == "mediumblob"@ || t == "longblob"@) ==> rust_type_for(t)
            == "Vec<u8>"@,
        sql_int_bits(t) == 0 && (t == "datetime"@ || t == "timestamp"@) ==> rust_type_for(t) == "DateTime<Utc>"@,
        sql_int_bits(t) == 0 && t == "json"@ ==> rust_type_for(t) == "serde_json::Value"@,
        sql_int_bits(t) == 0 && !(starts_with(t, "float"@) || starts_with(t, "double"@) || starts_with(
            t,
            "decimal"@,
        )) && !(t == "blob"@ || t == "mediumblob"@ || t == "longblob"@ || t == "datetime"@ || t
            == "timestamp"@ || t == "json"@) ==> rust_type_for(t) == "String"@,
        notnull == 0 ==> field_type_for(sql_type, notnull) == "Option<"@ + rust_type_for(lowercase(sql_type))
            + ">"@,
        notnull != 0 ==> field_type_for(sql_type, notnull) == rust_type_for(lowercase(sql_type)),
{
    reveal_strlit("tinyint(1)");
    reveal_strlit("tinyint");
    reveal_strlit("float");
    reveal_strlit("double");
    reveal_strlit("decimal");
    reveal_strlit("blob");
    reveal_strlit("mediumblob");
    reveal_strlit("longblob");
    reveal_strlit("datetime");
    reveal_strlit("timestamp");
    reveal_strlit("json");
    if t == "blob"@ || t == "json"@ {
        assert(t.len() == 4);
        assert(t[0] == 'b' || t[0] == 'j');
    }
    if t == "mediumblob"@ || t == "longblob"@ {
        assert(t[0] == 'm' || t[0] == 'l');
        assert(t.take(5)[0] == t[0] && t.take(6)[0] == t[0] && t.take(7)[0] == t[0]);
        assert(t.len() == 10 || t.len() == 8);
    }
    if t == "datetime"@ {
        assert(t.len() == 8 && t[0] == 'd' && t[1] == 'a');
        assert(t.take(5)[0] == t[0] && t.take(6)[1] == t[1] && t.take(7)[1] == t[1]);
    }
    if t == "timestamp"@ {
        assert(t.len() == 9 && t[0] == 't');
        assert(t.take(5)[0] == t[0] && t.take(6)[0] == t[0] && t.take(7)[0] == t[0]);
    }
    assert(t == "tinyint(1)"@ ==> starts_with(t, "tinyint"@)) by {
        if t == "tinyint(1)"@ {
            assert(t.take(7) =~= "tinyint"@);
        }
    }
}

} // verus!
