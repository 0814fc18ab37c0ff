//! The `[desk_shim]` table of `config.toml`.

use vstd::prelude::*;
use vstd::string::*;

use crate::text::{concat, decimal, decimal_text};

verus! {

/// The port that is listened on where the table names none.
pub const DEFAULT_PORT: u16 = 8397;

/// `toml::Value`: a TOML value as the outside crate holds it.
#[verifier::external_type_specification]
#[verifier::external_body]
pub struct ExTomlValue(toml::Value);

/// What a TOML value is, as far as the configuration reads it.
pub enum TomlModel {
    Text(Seq<char>),
    Integer(i64),
    Table(Map<Seq<char>, TomlModel>),
    Other,
}

/// What a `toml::Value` holds.
pub uninterp spec fn toml_model(v: toml::Value) -> TomlModel;

/// The document that a TOML text writes, where it writes one.
pub uninterp spec fn toml_document(s: Seq<char>) -> Option<TomlModel>;

impl TomlModel {
    /// The entry of that key, where the value is a table that has it.
    pub open spec fn get(self, key: Seq<char>) -> Option<TomlModel> {
        match self {
            TomlModel::Table(m) => if m.dom().contains(key) {
                Some(m[key])
            } else {
                None
            },
            _ => None,
        }
    }

    /// The integer under a key.
    pub open spec fn integer_at(self, key: Seq<char>) -> Option<i64> {
        match self.get(key) {
            Some(TomlModel::Integer(i)) => Some(i),
            _ => None,
        }
    }

    /// The text under a key.
    pub open spec fn text_at(self, key: Seq<char>) -> Option<Seq<char>> {
        match self.get(key) {
            Some(TomlModel::Text(s)) => Some(s),
            _ => None,
        }
    }
}

/// `toml::from_str::<toml::Value>`: the document, where the text is TOML, a
/// function of the text alone.
#[verifier::external_body]
fn parse_toml(s: &str) -> (r: Option<toml::Value>)
    ensures
        match r {
            Some(v) => toml_document(s@) == Some(toml_model(v)),
            None => toml_document(s@) is None,
        },
{
    toml::from_str::<toml::Value>(s).ok()
}

/// `toml::Value::get` with a text: the entry of that key, where the value is a
/// table that has it.
#[verifier::external_body]
fn toml_get<'a>(v: &'a toml::Value, key: &str) -> (r: Option<&'a toml::Value>)
    ensures
        match r {
            Some(e) => toml_model(*v).get(key@) == Some(toml_model(*e)),
            None => toml_model(*v).get(key@) is None,
        },
{
    v.get(key)
}

/// `toml::Value::as_integer`: the integer, where the value is one.
pub assume_specification[ toml::Value::as_integer ](v: &toml::Value) -> (r: Option<i64>)
    ensures
        r == (match toml_model(*v) {
            TomlModel::Integer(i) => Some(i),
            _ => None,
        }),
;

/// `toml::Value::as_str`: the text, where the value is one.
pub assume_specification[ toml::Value::as_str ](v: &toml::Value) -> (r: Option<&str>)
    ensures
        match r {
            Some(s) => toml_model(*v) == TomlModel::Text(s@),
            None => !(toml_model(*v) is Text),
        },
;

/// `toml::Value::is_table`: whether the value is a table.
pub assume_specification[ toml::Value::is_table ](v: &toml::Value) -> (r: bool)
    ensures
        r == (toml_model(*v) is Table),
;

/// Whether a character separates the components of a path on some platform.
pub open spec fn is_separator(c: char) -> bool {
    c == '/' || c == '\\'
}

/// Whether a path starts at a root: with a separator, or with a drive's letter, a
/// colon and a separator.
pub open spec fn is_rooted(path: Seq<char>) -> bool {
    path.len() > 0 && (is_separator(path[0]) || (path.len() >= 3 && path[1] == ':' && is_separator(
        path[2],
    )))
}

/// `std::path::Path::is_absolute`: whether a path is absolute. On every platform
/// an absolute path starts at a root. Which of those paths are absolute is the
/// platform's matter and left unsaid.
#[verifier::external_body]
fn is_absolute(path: &str) -> (r: bool)
    ensures
        r ==> is_rooted(path@),
{
    std::path::Path::new(path).is_absolute()
}

/// A path of the configuration.
#[derive(Debug, Clone)]
pub enum ConfigPath {
    /// An absolute path.
    Absolute(String),
    /// A path below the directory of the configuration file.
    InHome(String),
}

impl ConfigPath {
    /// The path as it was written.
    pub open spec fn written(self) -> Seq<char> {
        match self {
            ConfigPath::Absolute(s) => s@,
            ConfigPath::InHome(s) => s@,
        }
    }

    /// An absolute path stands for itself, any other is taken below the directory
    /// of the configuration file.
    pub fn resolve(path: &str, absolute: bool) -> (r: ConfigPath)
        ensures
            r.written() == path@,
            r is Absolute == absolute,
    {
        if absolute {
            ConfigPath::Absolute(path.to_owned())
        } else {
            ConfigPath::InHome(path.to_owned())
        }
    }
}

/// Whether a path that is taken as absolute starts at a root: any other is taken
/// below the directory of the configuration file.
pub open spec fn absolute_is_rooted(path: Option<ConfigPath>) -> bool {
    path matches Some(ConfigPath::Absolute(p)) ==> is_rooted(p@)
}

/// The optional path as it was written.
pub open spec fn written_path(path: Option<ConfigPath>) -> Option<Seq<char>> {
    match path {
        Some(p) => Some(p.written()),
        None => None,
    }
}

/// The port of a setting: the default where there is none or it is out of range.
pub open spec fn port_of(setting: Option<i64>) -> u16 {
    match setting {
        Some(p) => if 0 <= p <= u16::MAX {
            p as u16
        } else {
            DEFAULT_PORT
        },
        None => DEFAULT_PORT,
    }
}

/// The configuration of the shim.
#[derive(Debug, Clone)]
pub struct ShimConfig {
    pub port: u16,
    pub gemini_key_file: Option<ConfigPath>,
    pub dump_dir: Option<ConfigPath>,
}

/// The shim's table in a configuration file, where the file could be read, is
/// TOML and has one.
pub open spec fn shim_table(raw: Option<Seq<char>>) -> Option<TomlModel> {
    match raw {
        Some(s) => match toml_document(s) {
            Some(doc) => match doc.get("desk_shim"@) {
                Some(TomlModel::Table(m)) => Some(TomlModel::Table(m)),
                _ => None,
            },
            None => None,
        },
        None => None,
    }
}

/// The path under a key of the table.
fn path_at(table: &toml::Value, key: &str) -> (r: Option<ConfigPath>)
    ensures
        written_path(r) == toml_model(*table).text_at(key@),
        absolute_is_rooted(r),
{
    match toml_get(table, key) {
        Some(v) => match v.as_str() {
            Some(s) => Some(ConfigPath::resolve(s, is_absolute(s))),
            None => None,
        },
        None => None,
    }
}

impl ShimConfig {
    /// The configuration of the settings that a table gives.
    pub fn from_settings(
        port: Option<i64>,
        gemini_key_file: Option<ConfigPath>,
        dump_dir: Option<ConfigPath>,
    ) -> (r: ShimConfig)
        ensures
            r.port == port_of(port),
            r.gemini_key_file == gemini_key_file,
            r.dump_dir == dump_dir,
    {
        let port: u16 = match port {
            Some(p) => if 0 <= p && p <= u16::MAX as i64 {
                p as u16
            } else {
                DEFAULT_PORT
            },
            None => DEFAULT_PORT,
        };
        ShimConfig { port, gemini_key_file, dump_dir }
    }

    /// Takes the configuration from the text of `config.toml`, if that could be
    /// read. There is none where the file or its `[desk_shim]` table is missing or
    /// cannot be parsed.
    pub fn load(raw: Option<&str>) -> (r: Option<ShimConfig>)
        ensures
            ({
                let table = shim_table(
                    match raw {
                        Some(s) => Some(s@),
                        None => None,
                    },
                );
                match r {
                    Some(config) => {
                        &&& table is Some
                        &&& config.port == port_of(table->0.integer_at("port"@))
                        &&& written_path(config.gemini_key_file) == table->0.text_at(
                            "gemini_key_file"@,
                        )
                        &&& absolute_is_rooted(config.gemini_key_file)
                        &&& written_path(config.dump_dir) == table->0.text_at("dump_dir"@)
                        &&& absolute_is_rooted(config.dump_dir)
                    },
                    None => table is None,
                }
            }),
    {
        let doc = match raw {
            Some(s) => match parse_toml(s) {
                Some(doc) => doc,
                None => return None,
            },
            None => return None,
        };
        let table = match toml_get(&doc, "desk_shim") {
            Some(t) => t,
            None => return None,
        };
        if !table.is_table() {
            return None;
        }
        let port: Option<i64> = match toml_get(table, "port") {
            Some(p) => p.as_integer(),
            None => None,
        };
        Some(
            ShimConfig::from_settings(
                port,
                path_at(table, "gemini_key_file"),
                path_at(table, "dump_dir"),
            ),
        )
    }

    /// The URL that the provider is configured with.
    pub fn base_url(&self) -> (r: String)
        ensures
            r@ == "http://127.0.0.1:"@ + decimal(self.port as nat) + "/v1"@,
    {
        let mut url = concat("http://127.0.0.1:", decimal_text(self.port as u64).as_str());
        url.append("/v1");
        url
    }

    /// The address that is listened on.
    pub fn listen_addr(&self) -> (r: String)
        ensures
            r@ == "127.0.0.1:"@ + decimal(self.port as nat),
    {
        concat("127.0.0.1:", decimal_text(self.port as u64).as_str())
    }
}

/// How binding the loopback address went.
#[derive(Debug, Clone, Copy, PartialEq, Eq, Structural)]
pub enum Bound {
    Yes,
    InUse,
    Failed,
}

/// What follows.
#[derive(Debug)]
pub enum Started {
    /// The address is served here.
    Serve,
    /// A sibling process is taken to be serving the address.
    Sibling,
    /// Starting fails, with the message.
    Fail(String),
}

/// What follows binding an address. One that is in use is a success: a sibling
/// process serves it.
pub fn after_bind(addr: &str, outcome: Bound) -> (r: Started)
    ensures
        match outcome {
            Bound::Yes => r is Serve,
            Bound::InUse => r is Sibling,
            Bound::Failed => r is Fail && r->Fail_0@ == "desk-shim: bind "@ + addr@,
        },
{
    match outcome {
        Bound::Yes => Started::Serve,
        Bound::InUse => Started::Sibling,
        Bound::Failed => Started::Fail(concat("desk-shim: bind ", addr)),
    }
}

/// A port that is set is the port, where it is one; any other setting, or none, gives
/// port 8397.
pub proof fn law_port(p: i64)
    ensures
        0 <= p <= 65535 ==> port_of(Some(p)) == p,
        p < 0 || p > 65535 ==> port_of(Some(p)) == 8397,
        port_of(None) == 8397,
{
}

/// The settings are those of the `desk_shim` table of the document, where it is a table;
/// and each is read where it is of its kind.
pub proof fn law_settings(
    raw: Seq<char>,
    doc: Map<Seq<char>, TomlModel>,
    table: Map<Seq<char>, TomlModel>,
    key: Seq<char>,
)
    ensures
        toml_document(raw) == Some(TomlModel::Table(doc)) && doc.dom().contains("desk_shim"@)
            && doc["desk_shim"@] == TomlModel::Table(table) ==> shim_table(Some(raw)) == Some(
            TomlModel::Table(table),
        ),
        toml_document(raw) == Some(TomlModel::Table(doc)) && !doc.dom().contains("desk_shim"@)
            ==> shim_table(Some(raw)) is None,
        toml_document(raw) == Some(TomlModel::Table(doc)) && doc.dom().contains("desk_shim"@)
            && !(doc["desk_shim"@] is Table) ==> shim_table(Some(raw)) is None,
        toml_document(raw) is None ==> shim_table(Some(raw)) is None,
        shim_table(None) is None,
        table.dom().contains(key) && table[key] is Integer ==> TomlModel::Table(table).integer_at(
            key,
        ) == Some(table[key]->Integer_0),
        table.dom().contains(key) && table[key] is Text ==> TomlModel::Table(table).text_at(key)
            == Some(table[key]->Text_0),
        !table.dom().contains(key) || !(table[key] is Integer) ==> TomlModel::Table(
            table,
        ).integer_at(key) is None,
        !table.dom().contains(key) || !(table[key] is Text) ==> TomlModel::Table(table).text_at(key)
            is None,
{
}

/// A path that is rooted starts with a slash or a backslash, or with one of them after
/// a drive.
pub proof fn law_rooted(path: Seq<char>)
    ensures
        path.len() > 0 && (path[0] == '/' || path[0] == '\\') ==> is_rooted(path),
        path.len() >= 3 && path[1] == ':' && (path[2] == '/' || path[2] == '\\') ==> is_rooted(
            path,
        ),
        is_rooted(path) ==> path.len() > 0 && (path[0] == '/' || path[0] == '\\' || (path.len()
            >= 3 && path[1] == ':' && (path[2] == '/' || path[2] == '\\'))),
{
}

}
