//! The command line's own rules: connection kinds and secret stores, the arguments of
//! `connection add`, finding a connection by id or name, and the version line.

use vstd::prelude::*;
use crate::api::NirvanaApi;
use crate::domain::{Connection, ConnectionData, Ticket};
use crate::text::{parse_i64, parsed_i64, str_eq};

verus! {

/// The kinds of connection that can be added.
#[derive(Clone, Copy, Debug, PartialEq, Eq, Structural)]
pub enum ConnectionKind {
    JiraCloud,
    JiraDc,
}

/// Where a connection's secret is kept.
#[derive(Clone, Copy, Debug, PartialEq, Eq, Structural)]
pub enum SecretStore {
    /// The operating system's keyring (offered on macOS and Windows).
    Keyring,
    /// The database, in plain text.
    Plaintext,
}

/// The name of a connection kind as it is stored: `jira-cloud` or `jira-dc`.
pub open spec fn kind_name(k: ConnectionKind) -> Seq<char> {
    match k {
        ConnectionKind::JiraCloud => "jira-cloud"@,
        ConnectionKind::JiraDc => "jira-dc"@,
    }
}

/// The name of a secret store as it is stored: `keyring` or `plaintext`.
pub open spec fn store_name(s: SecretStore) -> Seq<char> {
    match s {
        SecretStore::Keyring => "keyring"@,
        SecretStore::Plaintext => "plaintext"@,
    }
}

impl ConnectionKind {
    /// The kind's stored name.
    pub fn to_string(&self) -> (s: String)
        ensures
            s@ == kind_name(*self),
    {
        match self {
            ConnectionKind::JiraCloud => String::from_str("jira-cloud"),
            ConnectionKind::JiraDc => String::from_str("jira-dc"),
        }
    }

    /// The kind as a menu shows it.
    pub fn label(&self) -> (s: &'static str)
        ensures
            s@ == (match *self {
                ConnectionKind::JiraCloud => "Jira Cloud"@,
                ConnectionKind::JiraDc => "Jira DC"@,
            }),
    {
        match self {
            ConnectionKind::JiraCloud => "Jira Cloud",
            ConnectionKind::JiraDc => "Jira DC",
        }
    }

    /// What the identity of a connection of this kind is asked as.
    pub fn identity_label(&self) -> (s: &'static str)
        ensures
            s@ == (match *self {
                ConnectionKind::JiraCloud => "Email"@,
                ConnectionKind::JiraDc => "Username"@,
            }),
    {
        match self {
            ConnectionKind::JiraCloud => "Email",
            ConnectionKind::JiraDc => "Username",
        }
    }

    /// What the secret of a connection of this kind is asked as.
    pub fn token_label(&self) -> (s: &'static str)
        ensures
            s@ == (match *self {
                ConnectionKind::JiraCloud => "API token"@,
                ConnectionKind::JiraDc => "Personal access token"@,
            }),
    {
        match self {
            ConnectionKind::JiraCloud => "API token",
            ConnectionKind::JiraDc => "Personal access token",
        }
    }
}

impl SecretStore {
    /// The store's stored name.
    pub fn to_string(&self) -> (s: String)
        ensures
            s@ == store_name(*self),
    {
        match self {
            SecretStore::Keyring => String::from_str("keyring"),
            SecretStore::Plaintext => String::from_str("plaintext"),
        }
    }
}

/// The arguments of `connection add`: all of them, or none for the interactive prompts.
#[derive(Debug)]
pub struct AddArgs {
    pub name: Option<String>,
    pub kind: Option<ConnectionKind>,
    pub host: Option<String>,
    pub identity: Option<String>,
    pub storage: Option<SecretStore>,
    pub token: Option<String>,
}

/// The new connection that complete arguments describe.
pub fn add_command(args: AddArgs) -> (d: ConnectionData)
    requires
        args.name is Some,
        args.kind is Some,
        args.host is Some,
        args.identity is Some,
        args.storage is Some,
        args.token is Some,
    ensures
        d.name == args.name->0,
        d.kind@ == kind_name(args.kind->0),
        d.host == args.host->0,
        d.identity == args.identity->0,
        d.secret_store@ == store_name(args.storage->0),
        d.token == args.token->0,
{
    ConnectionData {
        name: args.name.unwrap(),
        kind: args.kind.unwrap().to_string(),
        host: args.host.unwrap(),
        identity: args.identity.unwrap(),
        secret_store: args.storage.unwrap().to_string(),
        token: args.token.unwrap(),
    }
}

/// Whether `conn` is the active connection.
pub fn is_active(conn: &Connection, api: &NirvanaApi) -> (b: bool)
    ensures
        b == (api.config_view().active_connection == Some(conn.id)),
{
    api.active_connection() == Some(conn.id)
}

/// Why a connection could not be found.
#[derive(Debug)]
pub enum QueryError {
    /// No connection has this id or name; holds the query.
    NotFound(String),
}

impl QueryError {
    /// `Connection '{query}' not found`.
    pub fn message(&self) -> (m: String)
        ensures
            match self {
                QueryError::NotFound(q) => m@ == "Connection '"@ + q@ + "' not found"@,
            },
    {
        match self {
            QueryError::NotFound(q) => {
                let mut m = String::from_str("Connection '");
                m.append(q.as_str());
                m.append("' not found");
                m
            },
        }
    }
}

/// `i` is the first connection with id `id`.
pub open spec fn first_with_id(c: Seq<Connection>, id: int, i: int) -> bool {
    0 <= i < c.len() && c[i].id == id && forall|k: int| 0 <= k < i ==> c[k].id != id
}

/// `i` is the first connection named `name`.
pub open spec fn first_with_name(c: Seq<Connection>, name: Seq<char>, i: int) -> bool {
    0 <= i < c.len() && c[i].name@ == name && forall|k: int| 0 <= k < i ==> c[k].name@ != name
}

/// The query is a number and `i` is the first connection with that id.
pub open spec fn found_by_id(c: Seq<Connection>, q: Seq<char>, i: int) -> bool {
    match parsed_i64(q) {
        Some(id) => first_with_id(c, id, i),
        None => false,
    }
}

/// The query is a number that some connection has as its id.
pub open spec fn some_id_match(c: Seq<Connection>, q: Seq<char>) -> bool {
    match parsed_i64(q) {
        Some(id) => exists|j: int| 0 <= j < c.len() && c[j].id == id,
        None => false,
    }
}

/// Finds a connection by a query: the first one whose id the query is, as a number; else the
/// first one whose name it is.
pub fn resolve_query(query: &str, connections: &Vec<Connection>) -> (r: Result<usize, QueryError>)
    ensures
        match r {
            Ok(i) => found_by_id(connections@, query@, i as int) || (!some_id_match(connections@, query@)
                && first_with_name(connections@, query@, i as int)),
            Err(QueryError::NotFound(q)) => q@ == query@ && !some_id_match(connections@, query@) && forall|j: int|
                0 <= j < connections@.len() ==> connections@[j].name@ != query@,
        },
{
    let n = connections.len();
    if let Some(id) = parse_i64(query) {
        let mut i: usize = 0;
        while i < n
            invariant
                n == connections@.len(),
                i <= n,
                forall|k: int| 0 <= k < i ==> connections@[k].id != id,
                parsed_i64(query@) == Some(id as int),
            decreases n - i,
        {
            if connections[i].id == id {
                return Ok(i);
            }
            i += 1;
        }
        assert(!some_id_match(connections@, query@));
    }
    assert(!some_id_match(connections@, query@));
    let mut i: usize = 0;
    while i < n
        invariant
            n == connections@.len(),
            i <= n,
            forall|k: int| 0 <= k < i ==> connections@[k].name@ != query@,
            !some_id_match(connections@, query@),
        decreases n - i,
    {
        if str_eq(connections[i].name.as_str(), query) {
            return Ok(i);
        }
        i += 1;
    }
    Err(QueryError::NotFound(query.to_string()))
}

/// The version line: the base version, `-dev` for a development build, and the commit's short
/// hash and date in brackets where both are known.
pub open spec fn version_text(is_dev: bool, base: Seq<char>, hash: Option<Seq<char>>, date: Option<Seq<char>>) -> Seq<char> {
    let head = if is_dev { base + "-dev"@ } else { base };
    match (hash, date) {
        (Some(h), Some(d)) => head + " ("@ + h + " "@ + d + ")"@,
        _ => head,
    }
}

/// Writes the version line from the base version and the commit's short hash and date.
pub fn format_version(is_dev: bool, base: String, short_hash: Option<&str>, commit_date: Option<&str>) -> (s: String)
    ensures
        s@ == version_text(
            is_dev,
            base@,
            match short_hash {
                Some(h) => Some(h@),
                None => None,
            },
            match commit_date {
                Some(d) => Some(d@),
                None => None,
            },
        ),
{
    let mut s = base;
    if is_dev {
        s.append("-dev");
    }
    match (short_hash, commit_date) {
        (Some(h), Some(d)) => {
            s.append(" (");
            s.append(h);
            s.append(" ");
            s.append(d);
            s.append(")");
        },
        _ => {},
    }
    s
}

/// The widest connection name, in bytes.
pub fn name_width(connections: &Vec<Connection>) -> (w: usize)
    ensures
        forall|i: int| 0 <= i < connections@.len() ==> crate::table::byte_len(connections@[i].name@) <= w,
        connections@.len() == 0 ==> w == 0,
        connections@.len() > 0 ==> exists|i: int| 0 <= i < connections@.len() && crate::table::byte_len(connections@[i].name@) == w,
{
    let mut w: usize = 0;
    let n = connections.len();
    let mut i: usize = 0;
    while i < n
        invariant
            n == connections@.len(),
            i <= n,
            forall|k: int| 0 <= k < i ==> crate::table::byte_len(connections@[k].name@) <= w,
            i == 0 ==> w == 0,
            i > 0 ==> exists|k: int| 0 <= k < i && crate::table::byte_len(connections@[k].name@) == w,
        decreases n - i,
    {
        let len = connections[i].name.as_str().len();
        if i == 0 || len > w {
            w = len;
        }
        i += 1;
    }
    w
}

/// How a ticket is offered for picking: its key, and its summary after two spaces where it has one.
pub fn ticket_item(t: &Ticket) -> (s: String)
    ensures
        s@ == match t.summary {
            Some(sum) => t.ticket_key@ + "  "@ + sum@,
            None => t.ticket_key@,
        },
{
    match &t.summary {
        Some(sum) => {
            let mut s = t.ticket_key.clone();
            s.append("  ");
            s.append(sum.as_str());
            s
        },
        None => t.ticket_key.clone(),
    }
}

} // verus!
