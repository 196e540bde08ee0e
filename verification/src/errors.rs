//! The library's error types.

use vstd::prelude::*;
use crate::integration::integration_error_text;

verus! {

/// Failures of reading or writing the configuration file; each holds the underlying message.
#[derive(Debug)]
pub enum ConfigError {
    Io(String),
    Parse(String),
    Save(String),
}

/// Failures of the store.
#[derive(Debug)]
pub enum DbError {
    /// An error reported by the database engine, with its message.
    Sqlite(String),
    /// A query for one row found none.
    QueryReturnedNoRows,
    /// An I/O failure around the database file, with its message.
    Io(String),
    /// A connection with this name exists already.
    DuplicateName(String),
    /// A stop time at or before the start of the running slot.
    StopBeforeStart,
}

/// Refusals of the tracking rules.
#[derive(Debug)]
pub enum TrackingError {
    /// No connection is active, or the active one does not exist.
    NoActiveConnection,
    /// The issue tracker knows no ticket with this key.
    TicketNotFound(String),
}

/// Failures of talking to an issue tracker.
#[derive(Debug)]
pub enum IntegrationError {
    /// A transport or HTTP failure, with its message.
    Network(String),
    /// The tracker has no ticket with this key.
    TicketNotFound(String),
    /// The tracker refused the credentials; holds the HTTP status text.
    Auth(String),
    /// A connection kind that no integration serves.
    UnsupportedKind(String),
}

/// Every failure of the library's operations.
#[derive(Debug)]
pub enum NirvanaError {
    Config(ConfigError),
    Db(DbError),
    Io(String),
    Tracking(TrackingError),
    Integration(IntegrationError),
}


/// The text of a configuration error.
pub open spec fn config_error_text(e: ConfigError) -> Seq<char> {
    match e {
        ConfigError::Io(m) => "config I/O error: "@ + m@,
        ConfigError::Parse(m) => "config parse error: "@ + m@,
        ConfigError::Save(m) => "config save error: "@ + m@,
    }
}

/// The text of a database error.
pub open spec fn db_error_text(e: DbError) -> Seq<char> {
    match e {
        DbError::Sqlite(m) => "sqlite error: "@ + m@,
        DbError::QueryReturnedNoRows => "sqlite error: Query returned no rows"@,
        DbError::Io(m) => "db I/O error: "@ + m@,
        DbError::DuplicateName(n) => "duplicate connection name: '"@ + n@ + "'"@,
        DbError::StopBeforeStart => "stop time must be after the slot start time"@,
    }
}

/// The text of a tracking error.
pub open spec fn tracking_error_text(e: TrackingError) -> Seq<char> {
    match e {
        TrackingError::NoActiveConnection => "no active connection"@,
        TrackingError::TicketNotFound(k) => "ticket not found: "@ + k@,
    }
}

/// The text of any error of the library, as it is shown to the user.
pub open spec fn nirvana_error_text(e: NirvanaError) -> Seq<char> {
    match e {
        NirvanaError::Config(c) => "config error: "@ + config_error_text(c),
        NirvanaError::Db(d) => "database error: "@ + db_error_text(d),
        NirvanaError::Io(m) => "I/O error: "@ + m@,
        NirvanaError::Tracking(t) => tracking_error_text(t),
        NirvanaError::Integration(i) => integration_error_text(i),
    }
}

impl ConfigError {
    /// The error's text, as it is shown to the user.
    pub fn message(&self) -> (m: String)
        ensures
            m@ == config_error_text(*self),
    {
        let (mut m, rest) = match self {
            ConfigError::Io(e) => (String::from_str("config I/O error: "), e),
            ConfigError::Parse(e) => (String::from_str("config parse error: "), e),
            ConfigError::Save(e) => (String::from_str("config save error: "), e),
        };
        m.append(rest.as_str());
        m
    }
}

impl DbError {
    /// The error's text, as it is shown to the user.
    pub fn message(&self) -> (m: String)
        ensures
            m@ == db_error_text(*self),
    {
        match self {
            DbError::Sqlite(e) => {
                let mut m = String::from_str("sqlite error: ");
                m.append(e.as_str());
                m
            },
            DbError::QueryReturnedNoRows => String::from_str("sqlite error: Query returned no rows"),
            DbError::Io(e) => {
                let mut m = String::from_str("db I/O error: ");
                m.append(e.as_str());
                m
            },
            DbError::DuplicateName(n) => {
                let mut m = String::from_str("duplicate connection name: '");
                m.append(n.as_str());
                m.append("'");
                m
            },
            DbError::StopBeforeStart => String::from_str("stop time must be after the slot start time"),
        }
    }
}

impl TrackingError {
    /// The error's text, as it is shown to the user.
    pub fn message(&self) -> (m: String)
        ensures
            m@ == tracking_error_text(*self),
    {
        match self {
            TrackingError::NoActiveConnection => String::from_str("no active connection"),
            TrackingError::TicketNotFound(k) => {
                let mut m = String::from_str("ticket not found: ");
                m.append(k.as_str());
                m
            },
        }
    }
}

impl NirvanaError {
    /// The error's text, as it is shown to the user.
    pub fn message(&self) -> (m: String)
        ensures
            m@ == nirvana_error_text(*self),
    {
        match self {
            NirvanaError::Config(c) => {
                let mut m = String::from_str("config error: ");
                m.append(c.message().as_str());
                m
            },
            NirvanaError::Db(d) => {
                let mut m = String::from_str("database error: ");
                m.append(d.message().as_str());
                m
            },
            NirvanaError::Io(e) => {
                let mut m = String::from_str("I/O error: ");
                m.append(e.as_str());
                m
            },
            NirvanaError::Tracking(t) => t.message(),
            NirvanaError::Integration(i) => i.message(),
        }
    }
}

} // verus!
