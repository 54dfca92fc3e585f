//! Local database configuration: the engines, one database's settings, and
//! the check that turns what the configuration file holds into settings.

use vstd::prelude::*;
use vstd::string::*;
use crate::text::push_char;

verus! {

/// Database engines the agent can back up.
#[derive(Clone, Copy, Debug, PartialEq, Eq, Structural)]
pub enum DbType {
    Mysql,
    Mariadb,
    Postgresql,
    MongoDB,
    Sqlite,
}

/// The name the control plane knows an engine by.
pub open spec fn db_type_name(t: DbType) -> Seq<char> {
    match t {
        DbType::Mysql => "mysql"@,
        DbType::Mariadb => "mysql"@,
        DbType::Postgresql => "postgresql"@,
        DbType::MongoDB => "mongodb"@,
        DbType::Sqlite => "sqlite"@,
    }
}

impl DbType {
    /// The engine's name for the control plane (MariaDB reports as `mysql`).
    pub fn as_str(&self) -> (r: &'static str)
        ensures
            r@ == db_type_name(*self),
    {
        match self {
            DbType::Mysql => "mysql",
            DbType::Mariadb => "mysql",
            DbType::Postgresql => "postgresql",
            DbType::MongoDB => "mongodb",
            DbType::Sqlite => "sqlite",
        }
    }

    /// Engines reached over the network with a user name and password.
    pub open spec fn needs_credentials(self) -> bool {
        self != DbType::Sqlite
    }
}

/// Settings of one database, with every field filled in.
#[derive(Clone, Debug)]
pub struct DatabaseConfig {
    pub name: String,
    pub database: String,
    pub db_type: DbType,
    pub username: String,
    pub password: String,
    pub port: u16,
    pub host: String,
    pub generated_id: String,
    pub path: String,
}

/// The databases of this agent.
#[derive(Clone, Debug)]
pub struct DatabasesConfig {
    pub databases: Vec<DatabaseConfig>,
}

/// One database as the configuration file gives it; which fields must be
/// present depends on the engine.
#[derive(Clone, Debug)]
pub struct InputDatabaseConfig {
    pub name: String,
    pub database: Option<String>,
    pub db_type: DbType,
    pub username: Option<String>,
    pub password: Option<String>,
    pub port: Option<u16>,
    pub host: Option<String>,
    pub generated_id: String,
    pub path: Option<String>,
}

/// The databases as the configuration file gives them.
#[derive(Clone, Debug)]
pub struct InputDatabasesConfig {
    pub databases: Vec<InputDatabaseConfig>,
}

/// Why the configuration was rejected.
#[derive(Clone, Debug, PartialEq, Eq)]
pub enum ConfigError {
    /// `generated_id` of the named database is not a UUID.
    InvalidUuid { database: String },
    /// A field its engine requires is missing from the named database.
    MissingField { field: String, database: String },
}

impl ConfigError {
    /// The error as a sentence, naming the field and the database.
    pub fn message(&self) -> (r: String)
        ensures
            match self {
                ConfigError::InvalidUuid { database } => r@ == "Invalid UUID for database '"@ + database@ + "'"@,
                ConfigError::MissingField { field, database } => r@ == "Missing required field '"@ + field@
                    + "' for database '"@ + database@ + "'"@,
            },
    {
        match self {
            ConfigError::InvalidUuid { database } => {
                let mut s = String::from_str("Invalid UUID for database '");
                s.append(database.as_str());
                s.append("'");
                s
            },
            ConfigError::MissingField { field, database } => {
                let mut s = String::from_str("Missing required field '");
                s.append(field.as_str());
                s.append("' for database '");
                s.append(database.as_str());
                s.append("'");
                s
            },
        }
    }
}

/// A hexadecimal digit, either case.
pub open spec fn is_hex(c: char) -> bool {
    ('0' <= c && c <= '9') || ('a' <= c && c <= 'f') || ('A' <= c && c <= 'F')
}

/// 36 characters: hyphens at 8, 13, 18 and 23, hexadecimal digits elsewhere.
pub open spec fn hyphenated_uuid(s: Seq<char>) -> bool {
    &&& s.len() == 36
    &&& forall|i: int| 0 <= i < 36 ==> if i == 8 || i == 13 || i == 18 || i == 23 {
        s[i] == '-'
    } else {
        is_hex(#[trigger] s[i])
    }
}

/// `c` with `A` to `Z` mapped to `a` to `z`.
pub open spec fn lower(c: char) -> char {
    crate::text::ascii_lower(c)
}

/// The texts that `uuid::Uuid::parse_str` accepts: 32 hexadecimal digits;
/// the hyphenated form; the hyphenated form in braces; or `urn:uuid:` (any
/// case) followed by the hyphenated form.
pub open spec fn uuid_text(s: Seq<char>) -> bool {
    ||| (s.len() == 32 && forall|i: int| 0 <= i < 32 ==> is_hex(#[trigger] s[i]))
    ||| hyphenated_uuid(s)
    ||| (s.len() == 38 && s[0] == '{' && s[37] == '}' && hyphenated_uuid(s.subrange(1, 37)))
    ||| (s.len() == 45 && s.subrange(0, 9).map_values(|c: char| lower(c)) == "urn:uuid:"@
        && hyphenated_uuid(s.subrange(9, 45)))
}

/// Relies on `uuid::Uuid::parse_str` (`uuid-1.28.0/src/parser.rs`, `try_parse`):
/// it accepts exactly the forms of `uuid_text`.
#[verifier::external_body]
fn parses_as_uuid(s: &str) -> (r: bool)
    ensures
        r == uuid_text(s@),
{
    uuid::Uuid::parse_str(s).is_ok()
}

/// The first field that `db`'s engine requires and that is missing, in the
/// order username, password, host, port, database, path.
pub open spec fn first_missing(db: InputDatabaseConfig) -> Option<Seq<char>> {
    let t = db.db_type;
    if t.needs_credentials() && db.username.is_none() {
        Some("username"@)
    } else if t.needs_credentials() && db.password.is_none() {
        Some("password"@)
    } else if t != DbType::Sqlite && db.host.is_none() {
        Some("host"@)
    } else if t != DbType::Sqlite && db.port.is_none() {
        Some("port"@)
    } else if t != DbType::Sqlite && db.database.is_none() {
        Some("database"@)
    } else if t == DbType::Sqlite && db.path.is_none() {
        Some("path"@)
    } else {
        None
    }
}

/// A present text field's value, or the empty text.
pub open spec fn text_or_empty(o: Option<String>) -> Seq<char> {
    match o {
        Some(s) => s@,
        None => Seq::empty(),
    }
}

/// `c` carries `db`'s values, with absent optional fields empty (port 0).
pub open spec fn resolved_from(c: DatabaseConfig, db: InputDatabaseConfig) -> bool {
    &&& c.name@ == db.name@
    &&& c.generated_id@ == db.generated_id@
    &&& c.db_type == db.db_type
    &&& c.username@ == text_or_empty(db.username)
    &&& c.password@ == text_or_empty(db.password)
    &&& c.host@ == text_or_empty(db.host)
    &&& c.database@ == text_or_empty(db.database)
    &&& c.path@ == text_or_empty(db.path)
    &&& c.port == match db.port {
        Some(p) => p,
        None => 0u16,
    }
}

fn field_text(o: &Option<String>) -> (r: String)
    ensures
        r@ == text_or_empty(*o),
{
    match o {
        Some(s) => s.clone(),
        None => String::new(),
    }
}

fn missing(field: &str, database: &String) -> (r: ConfigError)
    ensures
        r matches ConfigError::MissingField { field: f, database: d } && f@ == field@ && d@ == database@,
{
    ConfigError::MissingField { field: String::from_str(field), database: database.clone() }
}

/// `e` is the error that checking `db` gives: an invalid UUID first, else
/// the first required field that is missing.
pub open spec fn rejects(db: InputDatabaseConfig, e: ConfigError) -> bool {
    if !uuid_text(db.generated_id@) {
        e matches ConfigError::InvalidUuid { database } && database@ == db.name@
    } else {
        match first_missing(db) {
            Some(f) => e matches ConfigError::MissingField { field, database } && field@ == f && database@ == db.name@,
            None => false,
        }
    }
}

/// `db` passes the check.
pub open spec fn accepted(db: InputDatabaseConfig) -> bool {
    uuid_text(db.generated_id@) && first_missing(db).is_none()
}

/// Checks one database against its engine's required fields.
pub fn resolve_database(db: &InputDatabaseConfig) -> (r: Result<DatabaseConfig, ConfigError>)
    ensures
        !uuid_text(db.generated_id@) ==> (r matches Err(ConfigError::InvalidUuid { database }) && database@ == db.name@),
        uuid_text(db.generated_id@) ==> match first_missing(*db) {
            Some(f) => r matches Err(ConfigError::MissingField { field, database })
                && field@ == f && database@ == db.name@,
            None => r matches Ok(c) && resolved_from(c, *db),
        },
        r matches Err(e) ==> rejects(*db, e),
{
    if !parses_as_uuid(db.generated_id.as_str()) {
        return Err(ConfigError::InvalidUuid { database: db.name.clone() });
    }
    let t = db.db_type;
    let creds = match t {
        DbType::Sqlite => false,
        _ => true,
    };
    let sqlite = match t {
        DbType::Sqlite => true,
        _ => false,
    };
    if creds && db.username.is_none() {
        return Err(missing("username", &db.name));
    }
    if creds && db.password.is_none() {
        return Err(missing("password", &db.name));
    }
    if !sqlite && db.host.is_none() {
        return Err(missing("host", &db.name));
    }
    if !sqlite && db.port.is_none() {
        return Err(missing("port", &db.name));
    }
    if !sqlite && db.database.is_none() {
        return Err(missing("database", &db.name));
    }
    if sqlite && db.path.is_none() {
        return Err(missing("path", &db.name));
    }
    let port: u16 = match db.port {
        Some(p) => p,
        None => 0,
    };
    Ok(DatabaseConfig {
        name: db.name.clone(),
        database: field_text(&db.database),
        db_type: t,
        username: field_text(&db.username),
        password: field_text(&db.password),
        port,
        host: field_text(&db.host),
        generated_id: db.generated_id.clone(),
        path: field_text(&db.path),
    })
}

/// Checks every database in file order; the first rejected one decides the
/// error.
pub fn resolve_databases(input: &InputDatabasesConfig) -> (r: Result<DatabasesConfig, ConfigError>)
    ensures
        r matches Ok(c) ==> c.databases@.len() == input.databases@.len()
            && forall|i: int| 0 <= i < c.databases@.len()
                ==> resolved_from(#[trigger] c.databases@[i], input.databases@[i]),
        r.is_ok() <==> forall|i: int| 0 <= i < input.databases@.len()
            ==> uuid_text((#[trigger] input.databases@[i]).generated_id@) && first_missing(input.databases@[i]).is_none(),
        r matches Err(e) ==> exists|i: int| 0 <= i < input.databases@.len()
            && (forall|k: int| 0 <= k < i ==> accepted(#[trigger] input.databases@[k]))
            && rejects(#[trigger] input.databases@[i], e),
{
    let mut out: Vec<DatabaseConfig> = Vec::new();
    let mut i: usize = 0;
    while i < input.databases.len()
        invariant
            i <= input.databases@.len(),
            out@.len() == i,
            forall|k: int| 0 <= k < i ==> resolved_from(#[trigger] out@[k], input.databases@[k]),
            forall|k: int| 0 <= k < i ==> uuid_text((#[trigger] input.databases@[k]).generated_id@)
                && first_missing(input.databases@[k]).is_none(),
        decreases input.databases@.len() - i,
    {
        match resolve_database(&input.databases[i]) {
            Ok(c) => {
                out.push(c);
            },
            Err(e) => {
                assert(forall|k: int| 0 <= k < i ==> accepted(#[trigger] input.databases@[k]));
                assert(rejects(input.databases@[i as int], e));
                return Err(e);
            },
        }
        i = i + 1;
    }
    Ok(DatabasesConfig { databases: out })
}

/// Position of the database with `generated_id`, if it is configured.
pub fn find_database(config: &DatabasesConfig, generated_id: &String) -> (r: Option<usize>)
    ensures
        r matches Some(i) ==> i < config.databases@.len() && config.databases@[i as int].generated_id@ == generated_id@
            && forall|k: int| 0 <= k < i ==> (#[trigger] config.databases@[k]).generated_id@ != generated_id@,
        r.is_none() ==> forall|k: int| 0 <= k < config.databases@.len()
            ==> (#[trigger] config.databases@[k]).generated_id@ != generated_id@,
{
    let mut i: usize = 0;
    while i < config.databases.len()
        invariant
            i <= config.databases@.len(),
            forall|k: int| 0 <= k < i ==> (#[trigger] config.databases@[k]).generated_id@ != generated_id@,
        decreases config.databases@.len() - i,
    {
        if config.databases[i].generated_id == *generated_id {
            return Some(i);
        }
        i = i + 1;
    }
    None
}

} // verus!
