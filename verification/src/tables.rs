//! The rows of the tables of the configuration database.
use vstd::prelude::*;

verus! {

/// A row of the `metadata` table: one named setting.
#[derive(Clone, Default)]
pub struct Metadata {
    pub id: i32,
    pub property: String,
    pub value: String,
}

/// A row of the `nodes` table; the SSH, MySQL and backup settings are
/// JSON text.
#[derive(Clone, Default)]
pub struct Nodes {
    pub id: i32,
    pub node_id: String,
    pub app_id: String,
    pub name: String,
    pub host: String,
    pub hostname: Option<String>,
    pub rel_dirname: Option<String>,
    pub remote_home_dir: Option<String>,
    pub domain_name: String,
    pub custom_domain: Option<String>,
    pub node_url: String,
    pub ssh: String,
    pub mysql: Option<String>,
    pub backup: String,
    pub timezone_offset: Option<i32>,
    pub mimics: Option<String>,
    pub active: Option<i32>,
    pub dev_mode: Option<i32>,
}

/// A row of the `servers` table.
#[derive(Clone, Default)]
pub struct Servers {
    pub id: i32,
    pub ip: String,
    pub username: String,
    pub password: Option<String>,
    pub hostname: Option<String>,
    pub provider: Option<String>,
    pub key_path: Option<String>,
}

} // verus!
