//! Issue tracker integrations: which connection kinds are served, the requests made to
//! Jira, and how its answers are read.

use vstd::prelude::*;
use crate::domain::Connection;
use crate::errors::IntegrationError;
use crate::text::str_eq;

verus! {

/// What the tracker says of an issue.
#[derive(Debug)]
pub struct IssueInfo {
    pub summary: String,
}

/// The address and credentials of a Jira site.
#[derive(Debug)]
pub struct JiraIntegration {
    pub host: String,
    pub identity: String,
    pub token: String,
}

/// The kinds of integration.
#[derive(Debug)]
pub enum IntegrationKind {
    Jira(JiraIntegration),
}

/// An integration built for a connection.
#[derive(Debug)]
pub struct Integration {
    pub kind: IntegrationKind,
}

/// The connection kinds served by the Jira integration: `jira-cloud` and `jira-dc`.
pub open spec fn is_jira_kind(kind: Seq<char>) -> bool {
    kind == seq!['j', 'i', 'r', 'a', '-', 'c', 'l', 'o', 'u', 'd'] || kind == seq!['j', 'i', 'r', 'a', '-', 'd', 'c']
}

impl JiraIntegration {
    /// A Jira integration for a host, with the identity and token to sign in with.
    pub fn new(host: &str, identity: &str, token: &str) -> (j: Self)
        ensures
            j.host@ == host@,
            j.identity@ == identity@,
            j.token@ == token@,
    {
        JiraIntegration { host: host.to_string(), identity: identity.to_string(), token: token.to_string() }
    }

    /// The address that gives the summary of an issue:
    /// `https://{host}/rest/api/3/issue/{key}?fields=summary`.
    pub fn issue_url(&self, ticket_key: &str) -> (u: String)
        ensures
            u@ == "https://"@ + self.host@ + "/rest/api/3/issue/"@ + ticket_key@ + "?fields=summary"@,
    {
        let mut u = String::from_str("https://");
        u.append(self.host.as_str());
        u.append("/rest/api/3/issue/");
        u.append(ticket_key);
        u.append("?fields=summary");
        u
    }

    /// The address that work on an issue is logged to: `https://{host}/rest/api/3/issue/{key}/worklog`.
    pub fn worklog_url(&self, ticket_key: &str) -> (u: String)
        ensures
            u@ == "https://"@ + self.host@ + "/rest/api/3/issue/"@ + ticket_key@ + "/worklog"@,
    {
        let mut u = String::from_str("https://");
        u.append(self.host.as_str());
        u.append("/rest/api/3/issue/");
        u.append(ticket_key);
        u.append("/worklog");
        u
    }
}

fn is_jira(kind: &str) -> (b: bool)
    ensures
        b == is_jira_kind(kind@),
{
    proof {
        reveal_strlit("jira-cloud");
        reveal_strlit("jira-dc");
    }
    let cloud = str_eq(kind, "jira-cloud");
    let dc = str_eq(kind, "jira-dc");
    assert("jira-cloud"@ =~= seq!['j', 'i', 'r', 'a', '-', 'c', 'l', 'o', 'u', 'd']);
    assert("jira-dc"@ =~= seq!['j', 'i', 'r', 'a', '-', 'd', 'c']);
    cloud || dc
}

/// The integration that serves a connection, signed in with `token`; a kind that no
/// integration serves is refused.
pub fn build_integration(connection: &Connection, token: &str) -> (r: Result<Integration, IntegrationError>)
    ensures
        is_jira_kind(connection.kind@) ==> (r matches Ok(i) && i.kind matches IntegrationKind::Jira(j)
            && j.host@ == connection.host@ && j.identity@ == connection.identity@ && j.token@ == token@),
        !is_jira_kind(connection.kind@) ==> (r matches Err(IntegrationError::UnsupportedKind(k)) && k@ == connection.kind@),
{
    if is_jira(connection.kind.as_str()) {
        Ok(Integration {
            kind: IntegrationKind::Jira(
                JiraIntegration::new(connection.host.as_str(), connection.identity.as_str(), token),
            ),
        })
    } else {
        Err(IntegrationError::UnsupportedKind(connection.kind.clone()))
    }
}

/// What `serde_json::from_slice::<serde_json::Value>(body)` makes of an answer's body, read at
/// `["fields"]["summary"]` as a string: `None` where the body is not JSON, `Some(None)` where that
/// member is missing or no string, and `Some(Some(summary))` otherwise.
pub uninterp spec fn json_issue_summary(body: Seq<u8>) -> Option<Option<Seq<char>>>;

/// Parses a body with `serde_json::from_slice` and reads the string at `["fields"]["summary"]`.
/// Claimed: the outcome is `json_issue_summary(body)`.
#[verifier::external_body]
fn issue_summary_field(body: &[u8]) -> (r: Option<Option<String>>)
    ensures
        match r {
            None => json_issue_summary(body@) is None,
            Some(None) => json_issue_summary(body@) == Some(None::<Seq<char>>),
            Some(Some(s)) => json_issue_summary(body@) == Some(Some(s@)),
        },
{
    match serde_json::from_slice::<serde_json::Value>(body) {
        Ok(v) => match v["fields"]["summary"].as_str() {
            Some(s) => Some(Some(s.to_string())),
            None => Some(None),
        },
        Err(_) => None,
    }
}

/// A status code in the 2xx range.
pub open spec fn is_success(status: u16) -> bool {
    200 <= status <= 299
}

/// What an answer to the issue request means: 404 is an unknown ticket, 401 and 403 a refused
/// sign-in (with the status text), any other status outside 2xx a failure (with its text);
/// otherwise the summary in the body, empty where there is none, or a decoding failure where the
/// body is not JSON.
pub open spec fn issue_outcome(
    ticket_key: Seq<char>,
    status: u16,
    status_text: Seq<char>,
    status_failure: Seq<char>,
    summary: Option<Option<Seq<char>>>,
) -> Result<Seq<char>, (int, Seq<char>)> {
    if status == 404 {
        Err((1, ticket_key))
    } else if status == 401 || status == 403 {
        Err((2, status_text))
    } else if !is_success(status) {
        Err((0, status_failure))
    } else {
        match summary {
            None => Err((0, "error decoding response body"@)),
            Some(None) => Ok(Seq::empty()),
            Some(Some(s)) => Ok(s),
        }
    }
}

/// The view of an issue lookup's outcome: the summary, or the error's variant
/// (0 network, 1 ticket not found, 2 authentication, 3 unsupported kind) and its text.
pub open spec fn issue_result_view(r: Result<IssueInfo, IntegrationError>) -> Result<Seq<char>, (int, Seq<char>)> {
    match r {
        Ok(i) => Ok(i.summary@),
        Err(IntegrationError::Network(m)) => Err((0, m@)),
        Err(IntegrationError::TicketNotFound(m)) => Err((1, m@)),
        Err(IntegrationError::Auth(m)) => Err((2, m@)),
        Err(IntegrationError::UnsupportedKind(m)) => Err((3, m@)),
    }
}

/// Decides an issue lookup from the parts of the answer, its body already read as JSON.
pub fn issue_from_parts(
    ticket_key: &str,
    status: u16,
    status_text: &str,
    status_failure: &str,
    summary: Option<Option<String>>,
) -> (r: Result<IssueInfo, IntegrationError>)
    ensures
        issue_result_view(r) == issue_outcome(
            ticket_key@,
            status,
            status_text@,
            status_failure@,
            match summary {
                None => None,
                Some(None) => Some(None),
                Some(Some(s)) => Some(Some(s@)),
            },
        ),
{
    if status == 404 {
        return Err(IntegrationError::TicketNotFound(ticket_key.to_string()));
    }
    if status == 401 || status == 403 {
        return Err(IntegrationError::Auth(status_text.to_string()));
    }
    if !(200 <= status && status <= 299) {
        return Err(IntegrationError::Network(status_failure.to_string()));
    }
    match summary {
        None => Err(IntegrationError::Network(String::from_str("error decoding response body"))),
        Some(None) => Ok(IssueInfo { summary: String::new() }),
        Some(Some(s)) => Ok(IssueInfo { summary: s }),
    }
}

/// Whether the body of an answer to the issue request is read: only for a 2xx status, the one
/// outcome that depends on it.
pub fn reads_body(status: u16) -> (b: bool)
    ensures
        b == is_success(status),
{
    200 <= status && status <= 299
}

/// Decides an issue lookup from the answer: its status code, the status text
/// (`"404 Not Found"`), the failure text that goes with an unsuccessful status, and the body,
/// which is read only where `reads_body` says so (an empty body stands for it otherwise).
pub fn issue_from_response(
    ticket_key: &str,
    status: u16,
    status_text: &str,
    status_failure: &str,
    body: &[u8],
) -> (r: Result<IssueInfo, IntegrationError>)
    ensures
        issue_result_view(r) == issue_outcome(
            ticket_key@,
            status,
            status_text@,
            status_failure@,
            json_issue_summary(body@),
        ),
{
    let summary = issue_summary_field(body);
    issue_from_parts(ticket_key, status, status_text, status_failure, summary)
}

/// The text of an integration error, as it is shown to the user.
pub open spec fn integration_error_text(e: IntegrationError) -> Seq<char> {
    match e {
        IntegrationError::Network(e) => "network error: "@ + e@,
        IntegrationError::TicketNotFound(k) => "ticket not found: "@ + k@,
        IntegrationError::Auth(s) => "authentication failed: "@ + s@,
        IntegrationError::UnsupportedKind(k) => "unsupported connection kind: "@ + k@,
    }
}

impl IntegrationError {
    /// The error's text, as it is shown to the user.
    pub fn message(&self) -> (m: String)
        ensures
            m@ == integration_error_text(*self),
    {
        let (mut m, rest) = match self {
            IntegrationError::Network(e) => (String::from_str("network error: "), e),
            IntegrationError::TicketNotFound(k) => (String::from_str("ticket not found: "), k),
            IntegrationError::Auth(s) => (String::from_str("authentication failed: "), s),
            IntegrationError::UnsupportedKind(k) => (String::from_str("unsupported connection kind: "), k),
        };
        m.append(rest.as_str());
        m
    }
}

} // verus!
