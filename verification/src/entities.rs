//! The tables of the configuration database and their columns, by name.
use vstd::prelude::*;

verus! {

/// The `metadata` table and its columns.
#[derive(Clone, Copy, PartialEq, Eq, Structural, Debug, Hash)]
pub enum Metadata {
    Table,
    Id,
    Property,
    Value,
}

/// The `nodes` table and its columns.
#[derive(Clone, Copy, PartialEq, Eq, Structural, Debug, Hash)]
pub enum Nodes {
    Table,
    Id,
    NodeId,
    AppId,
    Name,
    Host,
    Hostname,
    RelDirname,
    RemoteHomeDir,
    DomainName,
    CustomDomain,
    NodeUrl,
    Ssh,
    Mysql,
    Backup,
    TimezoneOffset,
    Mimics,
    Active,
    DevMode,
}

/// The `servers` table and its columns.
#[derive(Clone, Copy, PartialEq, Eq, Structural, Debug, Hash)]
pub enum Servers {
    Table,
    Id,
    Ip,
    Username,
    Password,
    Hostname,
    Provider,
    KeyPath,
}

impl Metadata {
    /// The name of the table or column in SQL.
    pub open spec fn name_spec(self) -> Seq<char> {
        match self {
            Metadata::Table => "metadata"@,
            Metadata::Id => "id"@,
            Metadata::Property => "property"@,
            Metadata::Value => "value"@,
        }
    }

    /// The name of the table or column in SQL.
    pub fn name(&self) -> (r: &'static str)
        ensures
            r@ == self.name_spec(),
    {
        match self {
            Metadata::Table => "metadata",
            Metadata::Id => "id",
            Metadata::Property => "property",
            Metadata::Value => "value",
        }
    }
}

impl Nodes {
    /// The name of the table or column in SQL.
    pub open spec fn name_spec(self) -> Seq<char> {
        match self {
            Nodes::Table => "nodes"@,
            Nodes::Id => "id"@,
            Nodes::NodeId => "node_id"@,
            Nodes::AppId => "app_id"@,
            Nodes::Name => "name"@,
            Nodes::Host => "host"@,
            Nodes::Hostname => "hostname"@,
            Nodes::RelDirname => "rel_dirname"@,
            Nodes::RemoteHomeDir => "remote_home_dir"@,
            Nodes::DomainName => "domain_name"@,
            Nodes::CustomDomain => "custom_domain"@,
            Nodes::NodeUrl => "node_url"@,
            Nodes::Ssh => "ssh"@,
            Nodes::Mysql => "mysql"@,
            Nodes::Backup => "backup"@,
            Nodes::TimezoneOffset => "timezone_offset"@,
            Nodes::Mimics => "mimics"@,
            Nodes::Active => "active"@,
            Nodes::DevMode => "dev_mode"@,
        }
    }

    /// The name of the table or column in SQL.
    pub fn name(&self) -> (r: &'static str)
        ensures
            r@ == self.name_spec(),
    {
        match self {
            Nodes::Table => "nodes",
            Nodes::Id => "id",
            Nodes::NodeId => "node_id",
            Nodes::AppId => "app_id",
            Nodes::Name => "name",
            Nodes::Host => "host",
            Nodes::Hostname => "hostname",
            Nodes::RelDirname => "rel_dirname",
            Nodes::RemoteHomeDir => "remote_home_dir",
            Nodes::DomainName => "domain_name",
            Nodes::CustomDomain => "custom_domain",
            Nodes::NodeUrl => "node_url",
            Nodes::Ssh => "ssh",
            Nodes::Mysql => "mysql",
            Nodes::Backup => "backup",
            Nodes::TimezoneOffset => "timezone_offset",
            Nodes::Mimics => "mimics",
            Nodes::Active => "active",
            Nodes::DevMode => "dev_mode",
        }
    }
}

impl Servers {
    /// The name of the table or column in SQL.
    pub open spec fn name_spec(self) -> Seq<char> {
        match self {
            Servers::Table => "servers"@,
            Servers::Id => "id"@,
            Servers::Ip => "ip"@,
            Servers::Username => "username"@,
            Servers::Password => "password"@,
            Servers::Hostname => "hostname"@,
            Servers::Provider => "provider"@,
            Servers::KeyPath => "key_path"@,
        }
    }

    /// The name of the table or column in SQL.
    pub fn name(&self) -> (r: &'static str)
        ensures
            r@ == self.name_spec(),
    {
        match self {
            Servers::Table => "servers",
            Servers::Id => "id",
            Servers::Ip => "ip",
            Servers::Username => "username",
            Servers::Password => "password",
            Servers::Hostname => "hostname",
            Servers::Provider => "provider",
            Servers::KeyPath => "key_path",
        }
    }
}

} // verus!
