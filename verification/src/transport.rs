//! What the two transports decide: which lines and which messages reach the
//! server, and what is said of those that do not.

use vstd::prelude::*;
use crate::mcp::{error_response, JsonRpcRequest, JsonRpcResponse};
use crate::registry::RegistryView;
use crate::server::{replies, request_accepted, McpServer, Reply, ReplyView};
use crate::text::{same, trim, trimmed};

verus! {

/// How clients reach the server.
#[derive(Debug, Clone, Copy, PartialEq, Eq, Structural)]
pub enum Transport {
    /// Over HTTP, with a stream of events for each client.
    Sse,
    /// Over standard input and output.
    Stdio,
}

/// The transport of the given name.
pub fn transport_named(name: &str) -> (r: Result<Transport, String>)
    ensures
        name@ == "sse"@ ==> r == Ok::<Transport, String>(Transport::Sse),
        name@ == "stdio"@ ==> r == Ok::<Transport, String>(Transport::Stdio),
        name@ != "sse"@ && name@ != "stdio"@ ==> (r matches Err(e) && e@ == "unknown transport: "@
            + name@ + " (use 'sse' or 'stdio')"@),
{
    proof {
        reveal_strlit("sse");
        reveal_strlit("stdio");
        assert("sse"@.len() != "stdio"@.len());
    }
    if same(name, "sse") {
        Ok(Transport::Sse)
    } else if same(name, "stdio") {
        Ok(Transport::Stdio)
    } else {
        Err("unknown transport: ".to_owned().concat(name).concat(" (use 'sse' or 'stdio')"))
    }
}

// Standard input and output: one JSON text in each line

/// The JSON text in a line of the input, where the line is not blank.
pub fn line_text(line: &str) -> (r: Option<String>)
    ensures
        match r {
            Some(text) => trim(line@).len() > 0 && text@ == trim(line@),
            None => trim(line@).len() == 0,
        },
{
    let text: String = trimmed(line);
    if text.as_str().is_empty() {
        None
    } else {
        Some(text)
    }
}

/// Whether the server can do `reply` on a JSON text, which is a request or which
/// the parser objects to.
pub open spec fn line_reply(
    r: RegistryView,
    parsed: Result<JsonRpcRequest, String>,
    reply: ReplyView,
) -> bool {
    match parsed {
        Ok(req) => replies(r, req@, reply),
        Err(e) => reply == ReplyView::Answered(
            error_response(None, -32700, "parse error: "@ + e@),
        ),
    }
}

/// Hands a JSON text that was read to the server.
pub fn handle_line(server: &McpServer, parsed: Result<JsonRpcRequest, String>) -> (r: Reply)
    requires
        parsed matches Ok(req) ==> request_accepted(server@, req@),
    ensures
        line_reply(server@, parsed, r@),
{
    match parsed {
        Ok(req) => server.handle(req),
        Err(e) => Reply::Answered(
            JsonRpcResponse::error(None, -32700, &"parse error: ".to_owned().concat(&e)),
        ),
    }
}

/// The line of output that carries a JSON text.
pub fn output_line(text: &str) -> (r: String)
    ensures
        r@ == text@ + "\n"@,
{
    text.to_owned().concat("\n")
}

// Events over HTTP

/// How many events may wait for a client.
pub const PENDING_EVENTS: usize = 32;

/// Where the client of a session sends its messages.
pub open spec fn message_uri(session: Seq<char>) -> Seq<char> {
    "/message?sessionId="@ + session
}

pub fn endpoint_uri(session: &str) -> (r: String)
    ensures
        r@ == message_uri(session@),
{
    "/message?sessionId=".to_owned().concat(session)
}

/// What becomes of a message: it is refused, with a status of HTTP, or it is
/// handed to the server.
#[derive(Debug)]
pub enum Admission {
    Refused { status: u16, reason: String },
    Admitted(JsonRpcRequest),
}

/// Decides on a message: it has to name a session, the session has to be `known`,
/// and the message has to be a request.
pub fn screen_message(
    named: bool,
    known: bool,
    parsed: Result<JsonRpcRequest, String>,
) -> (r: Admission)
    ensures
        !named ==> (r matches Admission::Refused { status, reason } && status == 400 && reason@
            == "missing sessionId"@),
        named && !known ==> (r matches Admission::Refused { status, reason } && status == 404
            && reason@ == "unknown session"@),
        named && known ==> match parsed {
            Ok(req) => r == Admission::Admitted(req),
            Err(e) => r matches Admission::Refused { status, reason } && status == 400 && reason@
                == "invalid request: "@ + e@,
        },
{
    if !named {
        return Admission::Refused { status: 400, reason: "missing sessionId".to_owned() };
    }
    if !known {
        return Admission::Refused { status: 404, reason: "unknown session".to_owned() };
    }
    match parsed {
        Ok(req) => Admission::Admitted(req),
        Err(e) => Admission::Refused {
            status: 400,
            reason: "invalid request: ".to_owned().concat(&e),
        },
    }
}

/// Different sessions are sent to different addresses.
pub proof fn message_uri_names_its_session(a: Seq<char>, b: Seq<char>)
    requires
        message_uri(a) == message_uri(b),
    ensures
        a == b,
{
    let prefix = "/message?sessionId="@;
    assert(a =~= message_uri(a).skip(prefix.len() as int));
    assert(b =~= message_uri(b).skip(prefix.len() as int));
}

/// A client is told to send its messages to `/message`, with its session's name
/// after `sessionId=`.
pub proof fn message_uri_is_the_session_after_its_prefix(session: Seq<char>)
    ensures
        message_uri(session).len() == 19 + session.len(),
        message_uri(session).take(19) == "/message?sessionId="@,
        message_uri(session).skip(19) == session,
{
    reveal_strlit("/message?sessionId=");
    assert(message_uri(session).take(19) =~= "/message?sessionId="@);
    assert(message_uri(session).skip(19) =~= session);
}

/// A text that the parser objects to is answered, under no id, with the error for
/// that and with what the parser said; any other is handled as the request that it
/// is.
pub proof fn lines_are_answered(
    r: RegistryView,
    parsed: Result<JsonRpcRequest, String>,
    reply: ReplyView,
)
    requires
        line_reply(r, parsed, reply),
    ensures
        parsed matches Ok(req) ==> replies(r, req@, reply),
        parsed matches Err(e) ==> (reply matches ReplyView::Answered(response) && response.id is None
            && response.result is None && (response.error matches Some(error) && error.code == -32700
            && error.message == "parse error: "@ + e@)),
{
}

} // verus!
