//! The request dispatcher: routes by path and HTTP method, checks the
//! session header, parses the body and decides the response.
use vstd::prelude::*;
use crate::output::{
    build_ping_response, compile_execute_error_response, compile_execute_tool_call_response,
    compile_init_response, compile_tool_calls, error_envelope, execute_envelope, framed,
    init_envelope, ping_envelope, tools_envelope,
};
use crate::payload::{parse_error_text, parse_payload, McpInputData, McpInputPayload, OperationView};
use crate::sessions::{McpSessions, SessionView};
use crate::stream_updates::McpSocketUpdateEvent;
use crate::text::chars_of;
use crate::tool_calls::{
    not_found_message, ExecutionError, McpToolCalls, ToolCallSchemaData, ToolSchemaView,
};
use tokio::sync::mpsc::Receiver;

verus! {

/// The header that carries the session identifier.
pub const SESSION_HEADER: &'static str = "mcp-session-id";

/// The headers of an event-stream response for session `session_id`: the
/// session header, `cache-control: no-cache` and
/// `content-type: text/event-stream`, in that order.
pub fn stream_headers(session_id: &str) -> (r: Vec<(String, String)>)
    ensures
        r@.len() == 3,
        r@[0].0@ == SESSION_HEADER@ && r@[0].1@ == session_id@,
        r@[1].0@ == "cache-control"@ && r@[1].1@ == "no-cache"@,
        r@[2].0@ == "content-type"@ && r@[2].1@ == "text/event-stream"@,
{
    let mut r: Vec<(String, String)> = Vec::new();
    r.push((String::from_str(SESSION_HEADER), String::from_str(session_id)));
    r.push((String::from_str("cache-control"), String::from_str("no-cache")));
    r.push((String::from_str("content-type"), String::from_str("text/event-stream")));
    r
}

/// The HTTP methods the dispatcher tells apart.
#[derive(Debug, Clone, Copy, PartialEq, Eq, Structural)]
pub enum HttpMethod {
    Get,
    Post,
    Delete,
    Other,
}

/// What the HTTP layer is to answer.
pub enum McpOutcome {
    /// 401, no body.
    Unauthorized,
    /// A long-lived stream fed by the session's push channel.
    Subscribe(Receiver<McpSocketUpdateEvent>),
    /// An event-stream response holding `body`, sent with the session header
    /// set to `session_id`, `cache-control: no-cache` and
    /// `content-type: text/event-stream`.
    Stream { body: String, session_id: String },
    /// 200 with an empty body.
    Empty,
    /// 202, no body.
    Accepted,
    /// A fatal-error response with this text.
    Fatal(String),
    /// Run the tool at position `tool` on `arguments`, then answer with
    /// `tool_call_response` for correlation id `id` on session `session_id`.
    RunTool { tool: usize, arguments: String, id: i64, session_id: String },
}

/// An outcome as the contracts see it.
pub enum OutcomeView {
    Unauthorized,
    Subscribe,
    Stream(Seq<char>, Seq<char>),
    Empty,
    Accepted,
    Fatal(Seq<char>),
    RunTool(int, Seq<char>, i64, Seq<char>),
}

impl McpOutcome {
    pub open spec fn view(&self) -> OutcomeView {
        match self {
            McpOutcome::Unauthorized => OutcomeView::Unauthorized,
            McpOutcome::Subscribe(_) => OutcomeView::Subscribe,
            McpOutcome::Stream { body, session_id } => OutcomeView::Stream(body@, session_id@),
            McpOutcome::Empty => OutcomeView::Empty,
            McpOutcome::Accepted => OutcomeView::Accepted,
            McpOutcome::Fatal(t) => OutcomeView::Fatal(t@),
            McpOutcome::RunTool { tool, arguments, id, session_id } => OutcomeView::RunTool(
                *tool as int,
                arguments@,
                *id,
                session_id@,
            ),
        }
    }
}

/// The fatal-error text for a refused body.
pub open spec fn parse_failure_text(e: crate::payload::ParseError) -> Seq<char> {
    "Can not execute http request. Err: "@ + parse_error_text(e)
}

/// The fatal-error text for a method this middleware does not know.
pub open spec fn unsupported_text(method: Seq<char>, data: Seq<char>) -> Seq<char> {
    "Unsupported method: "@ + method + ". data: "@ + data
}

/// The session header's value, if the request carries one.
pub open spec fn header_view(h: Option<&str>) -> Option<Seq<char>> {
    match h {
        Some(s) => Some(s@),
        None => None,
    }
}

/// ASCII letters to lower case, other characters unchanged.
pub open spec fn ascii_lower(c: char) -> char {
    if 'A' <= c <= 'Z' {
        ((c as u8) + 32u8) as char
    } else {
        c
    }
}

/// Equal up to the case of ASCII letters.
pub open spec fn eq_ignore_case(a: Seq<char>, b: Seq<char>) -> bool {
    a.len() == b.len() && forall|i: int| 0 <= i < a.len() ==> ascii_lower(#[trigger] a[i])
        == ascii_lower(b[i])
}

fn lower(c: char) -> (r: char)
    ensures
        r == ascii_lower(c),
{
    if 'A' <= c && c <= 'Z' {
        ((c as u8) + 32u8) as char
    } else {
        c
    }
}

/// Decides `eq_ignore_case(a@, b@)`.
pub fn equals_ignore_case(a: &str, b: &str) -> (r: bool)
    ensures
        r == eq_ignore_case(a@, b@),
{
    let x = chars_of(a);
    let y = chars_of(b);
    if x.len() != y.len() {
        return false;
    }
    let mut i: usize = 0;
    while i < x.len()
        invariant
            i <= x.len() == y.len(),
            x@ == a@,
            y@ == b@,
            forall|k: int| 0 <= k < i ==> ascii_lower(#[trigger] x@[k]) == ascii_lower(y@[k]),
        decreases x.len() - i,
    {
        if lower(x[i]) != lower(y[i]) {
            return false;
        }
        i = i + 1;
    }
    true
}

/// The middleware: where it listens, how the server introduces itself,
/// its sessions and its tools (with handlers of type `H`).
pub struct McpMiddleware<H> {
    mpc_path: String,
    name: String,
    version: String,
    instructions: String,
    sessions: McpSessions,
    tool_calls: McpToolCalls<H>,
}

impl<H> McpMiddleware<H> {
    pub closed spec fn path(&self) -> Seq<char> {
        self.mpc_path@
    }

    pub closed spec fn server_name(&self) -> Seq<char> {
        self.name@
    }

    pub closed spec fn server_version(&self) -> Seq<char> {
        self.version@
    }

    pub closed spec fn server_instructions(&self) -> Seq<char> {
        self.instructions@
    }

    /// The session registry.
    pub closed spec fn sessions(&self) -> McpSessions {
        self.sessions
    }

    /// The tool registry.
    pub closed spec fn tools(&self) -> McpToolCalls<H> {
        self.tool_calls
    }

    pub open spec fn well_formed(&self) -> bool {
        self.sessions().well_formed() && self.tools().well_formed()
    }

    /// A middleware serving `mpc_path`, with no sessions and no tools.
    pub fn new(mpc_path: &str, name: &str, version: &str, instructions: &str) -> (r: Self)
        ensures
            r.well_formed(),
            r.path() == mpc_path@,
            r.server_name() == name@,
            r.server_version() == version@,
            r.server_instructions() == instructions@,
            r.sessions().view() == Seq::<(Seq<char>, SessionView)>::empty(),
            r.tools().view() == Seq::<ToolSchemaView>::empty(),
    {
        McpMiddleware {
            mpc_path: String::from_str(mpc_path),
            name: String::from_str(name),
            version: String::from_str(version),
            instructions: String::from_str(instructions),
            sessions: McpSessions::new(),
            tool_calls: McpToolCalls::new(),
        }
    }

    /// Registers a tool: its name, description and schema documents, and
    /// the handler that runs it. A tool of the same name is replaced.
    pub fn register_tool_call(&mut self, schema: ToolCallSchemaData, handler: H)
        requires
            old(self).well_formed(),
        ensures
            final(self).well_formed(),
            final(self).sessions() == old(self).sessions(),
            final(self).path() == old(self).path(),
            final(self).server_name() == old(self).server_name(),
            final(self).server_version() == old(self).server_version(),
            final(self).server_instructions() == old(self).server_instructions(),
            forall|t: ToolSchemaView|
                #[trigger] final(self).tools().view().contains(t) <==> (t == schema.view() || (old(self).tools().view().contains(t) && t.name != schema.name@)),
            exists|p: int|
                0 <= p < final(self).tools().view().len() && final(self).tools().view()[p]
                    == schema.view() && final(self).tools().handlers()[p] == handler,
    {
        self.tool_calls.add(schema, handler);
    }

    /// The tool registry.
    pub fn tool_calls(&self) -> (r: &McpToolCalls<H>)
        ensures
            *r == self.tools(),
    {
        &self.tool_calls
    }

    /// The session registry, for eviction and shutdown.
    pub fn sessions_mut(&mut self) -> (r: &mut McpSessions)
        ensures
            *r == old(self).sessions(),
    {
        &mut self.sessions
    }

    /// The answer to a request carrying a valid session header, other than
    /// `initialize`.
    pub open spec fn authorized_reply(&self, session_id: Seq<char>, id: i64, op: OperationView) -> OutcomeView {
        match op {
            OperationView::ResourcesList => OutcomeView::Empty,
            OperationView::Ping => OutcomeView::Stream(framed(ping_envelope(id)), session_id),
            OperationView::ExecuteToolCall(n, a) => if self.tools().names().contains(n) {
                OutcomeView::RunTool(self.tools().position(n), a, id, session_id)
            } else {
                OutcomeView::Stream(framed(error_envelope(not_found_message(n), id)), session_id)
            },
            OperationView::ToolsList => OutcomeView::Stream(
                framed(tools_envelope(self.tools().view(), id)),
                session_id,
            ),
            OperationView::NotificationsInitialize => OutcomeView::Accepted,
            OperationView::Other(m, d) => OutcomeView::Fatal(unsupported_text(m, d)),
            OperationView::Initialize(_) => OutcomeView::Unauthorized,
        }
    }

    /// The answer to a POST with body `body` and session header
    /// `session_id`, for every body but a well-formed `initialize`.
    pub open spec fn post_reply(&self, session_id: Option<Seq<char>>, body: Seq<char>) -> OutcomeView {
        match parse_payload(body) {
            Err(e) => OutcomeView::Fatal(parse_failure_text(e)),
            Ok((_, id, op)) => match session_id {
                None => match op {
                    OperationView::Other(m, d) => OutcomeView::Fatal(unsupported_text(m, d)),
                    _ => OutcomeView::Unauthorized,
                },
                Some(s) => self.authorized_reply(s, id, op),
            },
        }
    }

    /// Whether `body` is a well-formed `initialize` request.
    pub open spec fn is_initialize(body: Seq<char>) -> bool {
        parse_payload(body) matches Ok((_, _, OperationView::Initialize(_)))
    }

    /// The sessions after a POST other than `initialize`: the session named
    /// by the header, if any, was used at `now`.
    pub open spec fn sessions_after_post(&self, session_id: Option<Seq<char>>, body: Seq<char>, now: i64) -> Seq<(Seq<char>, SessionView)> {
        match (parse_payload(body), session_id) {
            (Ok(_), Some(s)) => self.sessions().touched(s, now),
            _ => self.sessions().view(),
        }
    }

    fn open_session(&mut self, protocol_version: String, id: i64, now: i64) -> (r: McpOutcome)
        requires
            old(self).well_formed(),
        ensures
            final(self).well_formed(),
            final(self).tools() == old(self).tools(),
            final(self).path() == old(self).path(),
            final(self).server_name() == old(self).server_name(),
            final(self).server_version() == old(self).server_version(),
            final(self).server_instructions() == old(self).server_instructions(),
            r matches McpOutcome::Stream { body, session_id } && body@ == framed(
                init_envelope(
                    old(self).server_name(),
                    old(self).server_version(),
                    old(self).server_instructions(),
                    protocol_version@,
                    id,
                ),
            ) && !old(self).sessions().has(session_id@) && final(self).sessions().view()
                == old(self).sessions().view().push(
                (
                    session_id@,
                    SessionView {
                        version: protocol_version@,
                        create: now,
                        last_access: now,
                        subscribed: false,
                    },
                ),
            ),
    {
        let body = compile_init_response(
            self.name.as_str(),
            self.version.as_str(),
            self.instructions.as_str(),
            protocol_version.as_str(),
            id,
        );
        let session_id = self.sessions.generate_session(protocol_version, now);
        McpOutcome::Stream { body, session_id }
    }

    /// Answers a request that carries session header `session_id`, for
    /// correlation id `id`. `initialize` opens a new session; any other
    /// operation first marks the named session as used at `now`.
    pub fn handle_authorized_request(
        &mut self,
        session_id: &str,
        payload: McpInputPayload,
        now: i64,
        id: i64,
    ) -> (r: McpOutcome)
        requires
            old(self).well_formed(),
        ensures
            final(self).well_formed(),
            final(self).tools() == old(self).tools(),
            final(self).path() == old(self).path(),
            final(self).server_name() == old(self).server_name(),
            final(self).server_version() == old(self).server_version(),
            final(self).server_instructions() == old(self).server_instructions(),
            !(payload.data is Initialize) ==> final(self).sessions().view() == old(self).sessions().touched(session_id@, now),
            !(payload.data is Initialize) ==> r.view() == old(self).authorized_reply(session_id@, id, payload.data.view()),
            payload.data.view() matches OperationView::Initialize(pv) ==> (
            r matches McpOutcome::Stream { body: b, session_id: sid } && b@ == framed(
                init_envelope(
                    old(self).server_name(),
                    old(self).server_version(),
                    old(self).server_instructions(),
                    pv,
                    id,
                ),
            ) && !old(self).sessions().has(sid@) && final(self).sessions().view() == old(self).sessions().view().push(
                (sid@, SessionView { version: pv, create: now, last_access: now, subscribed: false }),
            )),
    {
        if let McpInputData::Initialize(contract) = payload.data {
            return self.open_session(contract.protocol_version, id, now);
        }
        self.sessions.check_session_and_update_last_used(session_id, now);
        let sid = String::from_str(session_id);
        match payload.data {
            McpInputData::ResourcesList => McpOutcome::Empty,
            McpInputData::Ping => {
                McpOutcome::Stream { body: build_ping_response(id), session_id: sid }
            },
            McpInputData::ExecuteToolCall(params) => {
                match self.tool_calls.execute(params.name.as_str()) {
                    Ok(tool) => {
                        assert(self.tool_calls.names().contains(params.name@)) by {
                            assert(self.tool_calls.names()[tool as int] == params.name@);
                        }
                        McpOutcome::RunTool { tool, arguments: params.arguments, id, session_id: sid }
                    },
                    Err(e) => {
                        let message = e.message();
                        McpOutcome::Stream {
                            body: compile_execute_error_response(message.as_str(), id),
                            session_id: sid,
                        }
                    },
                }
            },
            McpInputData::ToolsList => {
                let list = self.tool_calls.get_list();
                assert(list@.map_values(|t: ToolCallSchemaData| t.view()) =~= self.tool_calls.view());
                McpOutcome::Stream { body: compile_tool_calls(&list, id), session_id: sid }
            },
            McpInputData::NotificationsInitialize => McpOutcome::Accepted,
            McpInputData::Other { method, data } => {
                let mut text = String::from_str("Unsupported method: ");
                text.append(method.as_str());
                text.append(". data: ");
                text.append(data.as_str());
                McpOutcome::Fatal(text)
            },
            McpInputData::Initialize(_) => McpOutcome::Unauthorized,
        }
    }

    /// Handles a POST: parses `body`; without a session header only
    /// `initialize` (which opens a session) and unknown methods are
    /// answered, anything else is unauthorized; with one, every operation
    /// is.
    pub fn handle_post_request(&mut self, session_id: Option<&str>, body: &str, now: i64) -> (r:
        McpOutcome)
        requires
            old(self).well_formed(),
        ensures
            final(self).well_formed(),
            final(self).tools() == old(self).tools(),
            final(self).path() == old(self).path(),
            final(self).server_name() == old(self).server_name(),
            final(self).server_version() == old(self).server_version(),
            final(self).server_instructions() == old(self).server_instructions(),
            !Self::is_initialize(body@) ==> r.view() == old(self).post_reply(
                header_view(session_id),
                body@,
            ) && final(self).sessions().view() == old(self).sessions_after_post(
                header_view(session_id),
                body@,
                now,
            ),
            parse_payload(body@) matches Ok((_, id, OperationView::Initialize(pv))) ==> (
            r matches McpOutcome::Stream { body: b, session_id: sid } && b@ == framed(
                init_envelope(
                    old(self).server_name(),
                    old(self).server_version(),
                    old(self).server_instructions(),
                    pv,
                    id,
                ),
            ) && !old(self).sessions().has(sid@) && final(self).sessions().view() == old(self).sessions().view().push(
                (sid@, SessionView { version: pv, create: now, last_access: now, subscribed: false }),
            )),
    {
        let payload = match McpInputPayload::try_parse(body) {
            Ok(payload) => payload,
            Err(err) => {
                let mut text = String::from_str("Can not execute http request. Err: ");
                let m = err.message();
                text.append(m.as_str());
                return McpOutcome::Fatal(text);
            },
        };
        let id = payload.id;
        if let McpInputData::Initialize(contract) = payload.data {
            return self.open_session(contract.protocol_version, id, now);
        }
        match session_id {
            Some(session_id) => self.handle_authorized_request(session_id, payload, now, id),
            None => match payload.data {
                McpInputData::Other { method, data } => {
                    let mut text = String::from_str("Unsupported method: ");
                    text.append(method.as_str());
                    text.append(". data: ");
                    text.append(data.as_str());
                    McpOutcome::Fatal(text)
                },
                _ => McpOutcome::Unauthorized,
            },
        }
    }

    /// Handles a GET: opens the push stream of the session named by the
    /// header; unauthorized without a header or for an unknown session.
    pub fn handle_get_request(&mut self, session_id: Option<&str>) -> (r: McpOutcome)
        requires
            old(self).well_formed(),
        ensures
            final(self).well_formed(),
            final(self).tools() == old(self).tools(),
            final(self).path() == old(self).path(),
            final(self).server_name() == old(self).server_name(),
            final(self).server_version() == old(self).server_version(),
            final(self).server_instructions() == old(self).server_instructions(),
            session_id is None ==> r is Unauthorized && final(self).sessions() == old(self).sessions(),
            session_id matches Some(s) ==> (r is Subscribe <==> old(self).sessions().has(s@)),
            session_id matches Some(s) ==> (r is Subscribe || r is Unauthorized),
            session_id matches Some(s) ==> (!old(self).sessions().has(s@) ==> final(self).sessions().view()
                == old(self).sessions().view()),
            session_id matches Some(s) ==> (old(self).sessions().has(s@) ==> exists|i: int|
                0 <= i < old(self).sessions().view().len() && old(self).sessions().view()[i].0 == s@
                    && final(self).sessions().view() == old(self).sessions().view().update(
                    i,
                    (s@, SessionView { subscribed: true, ..old(self).sessions().view()[i].1 }),
                )),
    {
        match session_id {
            None => McpOutcome::Unauthorized,
            Some(s) => match self.sessions.subscribe_to_notifications(s) {
                Some(receiver) => McpOutcome::Subscribe(receiver),
                None => McpOutcome::Unauthorized,
            },
        }
    }

    /// Entry point: `None` for a path other than the middleware's (compared
    /// without regard to ASCII case) and for methods other than GET and
    /// POST; otherwise the answer of `handle_get_request` or
    /// `handle_post_request`.
    pub fn handle_request(
        &mut self,
        method: HttpMethod,
        path: &str,
        session_id: Option<&str>,
        body: &str,
        now: i64,
    ) -> (r: Option<McpOutcome>)
        requires
            old(self).well_formed(),
        ensures
            final(self).well_formed(),
            final(self).tools() == old(self).tools(),
            r is None <==> !eq_ignore_case(path@, old(self).path()) || !(method == HttpMethod::Get
                || method == HttpMethod::Post),
            r is None ==> final(self).sessions() == old(self).sessions(),
            r is Some && method == HttpMethod::Get ==> (r->0 is Subscribe || r->0 is Unauthorized),
            r is Some && method == HttpMethod::Get ==> (r->0 is Subscribe <==> (session_id matches Some(
                s,
            ) && old(self).sessions().has(s@))),
            final(self).path() == old(self).path(),
            final(self).server_name() == old(self).server_name(),
            final(self).server_version() == old(self).server_version(),
            final(self).server_instructions() == old(self).server_instructions(),
            r is Some && method == HttpMethod::Get ==> (session_id is None ==> final(self).sessions()
                == old(self).sessions()),
            r is Some && method == HttpMethod::Get ==> (session_id matches Some(s) ==> (!old(self).sessions().has(s@) ==> final(self).sessions().view() == old(self).sessions().view())),
            r is Some && method == HttpMethod::Get ==> (session_id matches Some(s) ==> (old(self).sessions().has(s@) ==> exists|i: int|
                0 <= i < old(self).sessions().view().len() && old(self).sessions().view()[i].0 == s@
                    && final(self).sessions().view() == old(self).sessions().view().update(
                    i,
                    (s@, SessionView { subscribed: true, ..old(self).sessions().view()[i].1 }),
                ))),
            r is Some && method == HttpMethod::Post && !Self::is_initialize(body@) ==> final(self).sessions().view() == old(self).sessions_after_post(header_view(session_id), body@, now),
            r is Some && method == HttpMethod::Post ==> (parse_payload(body@) matches Ok(
                (_, id, OperationView::Initialize(pv)),
            ) ==> (r->0 matches McpOutcome::Stream { body: b, session_id: sid } && b@ == framed(
                init_envelope(
                    old(self).server_name(),
                    old(self).server_version(),
                    old(self).server_instructions(),
                    pv,
                    id,
                ),
            ) && !old(self).sessions().has(sid@) && final(self).sessions().view() == old(self).sessions().view().push(
                (sid@, SessionView { version: pv, create: now, last_access: now, subscribed: false }),
            ))),
            r is Some && method == HttpMethod::Post && !Self::is_initialize(body@) ==> r->0.view()
                == old(self).post_reply(header_view(session_id), body@),
    {
        if !equals_ignore_case(path, self.mpc_path.as_str()) {
            return None;
        }
        match method {
            HttpMethod::Get => Some(self.handle_get_request(session_id)),
            HttpMethod::Post => Some(self.handle_post_request(session_id, body, now)),
            _ => None,
        }
    }

    /// The framed answer to a tool call that the caller ran: the tool's JSON
    /// output, or an error envelope for a failure.
    pub fn tool_call_response(&self, result: Result<String, ExecutionError>, id: i64) -> (r: String)
        ensures
            result matches Ok(out) ==> r@ == framed(execute_envelope(out@, id)),
            result matches Err(e) ==> (e is ToolNotFound ==> r@ == framed(
                error_envelope(not_found_message(e->ToolNotFound_0@), id),
            )),
            result matches Err(e) ==> (e is InvalidArguments ==> r@ == framed(
                error_envelope(e->InvalidArguments_0@, id),
            )),
            result matches Err(e) ==> (e is ToolFailed ==> r@ == framed(
                error_envelope(e->ToolFailed_0@, id),
            )),
    {
        match result {
            Ok(out) => compile_execute_tool_call_response(out.as_str(), id),
            Err(e) => {
                let message = e.message();
                compile_execute_error_response(message.as_str(), id)
            },
        }
    }
}

/// A `ping` carrying a session header is answered on that session with one
/// record holding the empty result for the request's id.
pub proof fn lemma_ping_reply<H>(m: McpMiddleware<H>, session_id: Seq<char>, id: i64)
    ensures
        m.authorized_reply(session_id, id, OperationView::Ping) == OutcomeView::Stream(
            framed(ping_envelope(id)),
            session_id,
        ),
{
}

/// A `tools/call` of a name no tool has runs nothing and is answered on the
/// session with an error envelope saying that the tool is not found.
pub proof fn lemma_unknown_tool_reply<H>(
    m: McpMiddleware<H>,
    session_id: Seq<char>,
    id: i64,
    name: Seq<char>,
    arguments: Seq<char>,
)
    requires
        !m.tools().names().contains(name),
    ensures
        m.authorized_reply(session_id, id, OperationView::ExecuteToolCall(name, arguments))
            == OutcomeView::Stream(framed(error_envelope(not_found_message(name), id)), session_id),
{
}

} // verus!
