//! What the desktop window shows of connections and how it creates one.

use vstd::prelude::*;
use crate::api::{add_outcome, connection_pos, NirvanaApi};
use crate::domain::{connection_of, Connection, ConnectionData};
use crate::errors::{nirvana_error_text, NirvanaError};
use crate::time::clock_failure_text;

verus! {

/// A connection as the window shows it.
#[derive(Debug)]
pub struct GuiConnection {
    pub id: i64,
    pub name: String,
    pub connection_type: String,
    pub hostname: String,
    pub username: String,
}

/// What the window's form asks for a new connection.
#[derive(Debug)]
pub struct CreateConnectionInput {
    pub name: String,
    pub connection_type: String,
    pub hostname: String,
    pub username: String,
    pub token: String,
}

impl From<Connection> for GuiConnection {
    fn from(c: Connection) -> (g: Self) {
        GuiConnection { id: c.id, name: c.name, connection_type: c.kind, hostname: c.host, username: c.identity }
    }
}

impl vstd::std_specs::convert::FromSpecImpl<Connection> for GuiConnection {
    open spec fn obeys_from_spec() -> bool {
        true
    }

    open spec fn from_spec(c: Connection) -> GuiConnection {
        GuiConnection { id: c.id, name: c.name, connection_type: c.kind, hostname: c.host, username: c.identity }
    }
}

/// The connection that the form describes; its secret is kept in the database.
pub fn connection_data_for(input: CreateConnectionInput) -> (d: ConnectionData)
    ensures
        d.name == input.name,
        d.kind == input.connection_type,
        d.host == input.hostname,
        d.identity == input.username,
        d.secret_store@ == "plaintext"@,
        d.token == input.token,
{
    ConnectionData {
        name: input.name,
        kind: input.connection_type,
        host: input.hostname,
        identity: input.username,
        secret_store: String::from_str("plaintext"),
        token: input.token,
    }
}

/// A connection as the window shows it: its id, name, kind, host and identity.
pub open spec fn gui_of(c: Connection) -> GuiConnection {
    GuiConnection { id: c.id, name: c.name, connection_type: c.kind, hostname: c.host, username: c.identity }
}

/// `d` is the connection that the form describes.
pub open spec fn describes(input: CreateConnectionInput, d: ConnectionData) -> bool {
    &&& d.name == input.name
    &&& d.kind == input.connection_type
    &&& d.host == input.hostname
    &&& d.identity == input.username
    &&& d.secret_store@ == "plaintext"@
    &&& d.token == input.token
}

/// The active connection as the window shows it, where it exists.
pub fn get_active_connection(api: &NirvanaApi) -> (r: Result<Option<GuiConnection>, String>)
    requires
        api.wf(),
    ensures
        match api.config_view().active_connection {
            None => r matches Ok(None),
            Some(id) => match connection_pos(api.db_view().connections@, id) {
                Some(i) => r matches Ok(Some(g)) && g == gui_of(connection_of(api.db_view().connections@[i])),
                None => r matches Ok(None),
            },
        },
{
    match api.get_active_connection() {
        Ok(Some(c)) => Ok(Some(GuiConnection::from(c))),
        Ok(None) => Ok(None),
        Err(e) => Err(e.message()),
    }
}

/// Creates the connection that the form describes, once a test sign-in with it was answered
/// with `tested`. A failed test is reported and nothing is stored. Otherwise the connection is
/// stored as `NirvanaApi::add_connection` stores it, made the active one, and returned as the
/// window shows it; or the system clock cannot be read, and nothing is stored. Errors come back as
/// their text.
pub fn create_connection(
    api: &mut NirvanaApi,
    input: CreateConnectionInput,
    tested: Result<(), NirvanaError>,
) -> (r: Result<GuiConnection, String>)
    requires
        old(api).wf(),
    ensures
        final(api).wf(),
        final(api).paths_view() == old(api).paths_view(),
        tested matches Err(e) ==> {
            &&& r matches Err(m) && m@ == nirvana_error_text(e)
            &&& final(api).db_view() == old(api).db_view()
            &&& final(api).config_view() == old(api).config_view()
        },
        tested is Ok ==> {
            ||| {
                &&& r matches Err(m) && m@ == "I/O error: "@ + clock_failure_text()
                &&& final(api).db_view() == old(api).db_view()
                &&& final(api).config_view() == old(api).config_view()
            }
            ||| exists|d: ConnectionData, now: i64, added: Result<Connection, NirvanaError>| {
            &&& describes(input, d)
            &&& #[trigger] add_outcome(old(api).db_view(), final(api).db_view(), d, now, added)
            &&& match added {
                Ok(c) => {
                    &&& r matches Ok(g) && g == gui_of(c)
                    &&& final(api).config_view().active_connection == Some(c.id)
                },
                Err(e) => {
                    &&& r matches Err(m) && m@ == nirvana_error_text(e)
                    &&& final(api).config_view() == old(api).config_view()
                },
            }
            }
        },
{
    if let Err(e) = tested {
        return Err(e.message());
    }
    let data = connection_data_for(input);
    let added = api.add_connection(data);
    match added {
        Ok(c) => match api.set_active_connection(c.id) {
            Ok(()) => Ok(GuiConnection::from(c)),
            Err(e) => Err(e.message()),
        },
        Err(e) => Err(e.message()),
    }
}

} // verus!
