//! The response envelopes, and their framing as event-stream records.
use vstd::prelude::*;
use crate::text::{digit_char, escape_char, escaped, int_text, nat_digits, push_int, push_quoted, quoted};
use crate::tool_calls::{ToolCallSchemaData, ToolSchemaView};

verus! {

/// One event-stream record carrying `body`.
pub open spec fn framed(body: Seq<char>) -> Seq<char> {
    "data: "@ + body + "\n\n"@
}

/// Wraps an envelope into an event-stream record: `data: `, the envelope,
/// and two newlines.
pub fn frame(envelope: &str) -> (r: String)
    ensures
        r@ == framed(envelope@),
{
    let mut r = String::from_str("data: ");
    r.append(envelope);
    r.append("\n\n");
    r
}

/// The result of `initialize`.
pub open spec fn init_result(
    name: Seq<char>,
    version: Seq<char>,
    instructions: Seq<char>,
    protocol_version: Seq<char>,
) -> Seq<char> {
    quoted(protocol_version)
        + ",\"capabilities\":{\"resources\":{\"listChanged\":true},\"tools\":{\"listChanged\":true}},\"serverInfo\":{\"name\":"@
        + quoted(name) + ",\"version\":"@ + quoted(version) + "},\"instructions\":"@ + quoted(
        instructions,
    )
}

/// The envelope answering `initialize`.
pub open spec fn init_envelope(
    name: Seq<char>,
    version: Seq<char>,
    instructions: Seq<char>,
    protocol_version: Seq<char>,
    id: i64,
) -> Seq<char> {
    "{\"result\":{\"protocolVersion\":"@ + init_result(name, version, instructions, protocol_version)
        + "},\"jsonrpc\":\"2.0\",\"id\":"@ + int_text(id as int) + "}"@
}

/// Builds the framed answer to `initialize`.
pub fn compile_init_response(
    name: &str,
    version: &str,
    instructions: &str,
    protocol_version: &str,
    id: i64,
) -> (r: String)
    ensures
        r@ == framed(init_envelope(name@, version@, instructions@, protocol_version@, id)),
{
    let mut e = String::from_str("{\"result\":{\"protocolVersion\":");
    push_quoted(&mut e, protocol_version);
    e.append(
        ",\"capabilities\":{\"resources\":{\"listChanged\":true},\"tools\":{\"listChanged\":true}},\"serverInfo\":{\"name\":",
    );
    push_quoted(&mut e, name);
    e.append(",\"version\":");
    push_quoted(&mut e, version);
    e.append("},\"instructions\":");
    push_quoted(&mut e, instructions);
    e.append("},\"jsonrpc\":\"2.0\",\"id\":");
    push_int(&mut e, id);
    e.append("}");
    proof {
        assert(e@ =~= init_envelope(name@, version@, instructions@, protocol_version@, id));
    }
    frame(e.as_str())
}

/// One tool in the `tools/list` result.
pub open spec fn tool_json(t: ToolSchemaView) -> Seq<char> {
    "{\"name\":"@ + quoted(t.name) + ",\"description\":"@ + quoted(t.description)
        + ",\"inputSchema\":"@ + t.input + ",\"outputSchema\":"@ + t.output + "}"@
}

/// The tools, comma separated.
pub open spec fn tools_json(ts: Seq<ToolSchemaView>) -> Seq<char>
    decreases ts.len(),
{
    if ts.len() == 0 {
        Seq::empty()
    } else if ts.len() == 1 {
        tool_json(ts[0])
    } else {
        tools_json(ts.drop_last()) + ","@ + tool_json(ts.last())
    }
}

/// The envelope answering `tools/list`.
pub open spec fn tools_envelope(ts: Seq<ToolSchemaView>, id: i64) -> Seq<char> {
    "{\"result\":{\"tools\":["@ + tools_json(ts) + "]},\"jsonrpc\":\"2.0\",\"id\":"@ + int_text(
        id as int,
    ) + "}"@
}

fn push_tool(e: &mut String, t: &ToolCallSchemaData)
    ensures
        final(e)@ == old(e)@ + tool_json(t.view()),
{
    e.append("{\"name\":");
    push_quoted(e, t.name.as_str());
    e.append(",\"description\":");
    push_quoted(e, t.description.as_str());
    e.append(",\"inputSchema\":");
    e.append(t.input.as_str());
    e.append(",\"outputSchema\":");
    e.append(t.output.as_str());
    e.append("}");
    assert(final(e)@ =~= old(e)@ + tool_json(t.view()));
}

/// Builds the framed answer to `tools/list`.
pub fn compile_tool_calls(tools: &Vec<ToolCallSchemaData>, id: i64) -> (r: String)
    ensures
        r@ == framed(tools_envelope(tools@.map_values(|t: ToolCallSchemaData| t.view()), id)),
{
    let ghost ts = tools@.map_values(|t: ToolCallSchemaData| t.view());
    let mut e = String::from_str("{\"result\":{\"tools\":[");
    let ghost start = e@;
    let mut i: usize = 0;
    while i < tools.len()
        invariant
            i <= tools.len(),
            ts == tools@.map_values(|t: ToolCallSchemaData| t.view()),
            e@ == start + tools_json(ts.take(i as int)),
        decreases tools.len() - i,
    {
        let t = &tools[i];
        if i > 0 {
            e.append(",");
        }
        push_tool(&mut e, t);
        proof {
            let next = ts.take(i + 1);
            assert(next.drop_last() =~= ts.take(i as int));
            assert(next.last() == t.view());
            if i == 0 {
                assert(ts.take(0) =~= Seq::<ToolSchemaView>::empty());
            }
        }
        i = i + 1;
        assert(e@ =~= start + tools_json(ts.take(i as int)));
    }
    assert(ts.take(i as int) =~= ts);
    e.append("]},\"jsonrpc\":\"2.0\",\"id\":");
    push_int(&mut e, id);
    e.append("}");
    assert(e@ =~= tools_envelope(ts, id));
    frame(e.as_str())
}

/// The envelope carrying a tool's JSON output `response`.
pub open spec fn execute_envelope(response: Seq<char>, id: i64) -> Seq<char> {
    "{\"jsonrpc\":\"2.0\",\"id\":"@ + int_text(id as int) + ",\"result\":{\"content\":[{\"type\":\"text\",\"text\":"@ + quoted(
        response,
    ) + "}],\"structuredContent\":"@ + response + ",\"isError\":false}}"@
}

/// Builds the framed answer to a tool call that succeeded with the JSON
/// document `response`.
pub fn compile_execute_tool_call_response(response: &str, id: i64) -> (r: String)
    ensures
        r@ == framed(execute_envelope(response@, id)),
{
    let mut e = String::from_str("{\"jsonrpc\":\"2.0\",\"id\":");
    push_int(&mut e, id);
    e.append(",\"result\":{\"content\":[{\"type\":\"text\",\"text\":");
    push_quoted(&mut e, response);
    e.append("}],\"structuredContent\":");
    e.append(response);
    e.append(",\"isError\":false}}");
    assert(e@ =~= execute_envelope(response@, id));
    frame(e.as_str())
}

/// The envelope reporting that a tool call failed with `message`.
pub open spec fn error_envelope(message: Seq<char>, id: i64) -> Seq<char> {
    "{\"jsonrpc\":\"2.0\",\"id\":"@ + int_text(id as int) + ",\"result\":{\"content\":[{\"type\":\"text\",\"text\":"@ + quoted(
        message,
    ) + "}],\"isError\":true}}"@
}

/// Builds the framed answer to a tool call that failed with `message`.
pub fn compile_execute_error_response(message: &str, id: i64) -> (r: String)
    ensures
        r@ == framed(error_envelope(message@, id)),
{
    let mut e = String::from_str("{\"jsonrpc\":\"2.0\",\"id\":");
    push_int(&mut e, id);
    e.append(",\"result\":{\"content\":[{\"type\":\"text\",\"text\":");
    push_quoted(&mut e, message);
    e.append("}],\"isError\":true}}");
    assert(e@ =~= error_envelope(message@, id));
    frame(e.as_str())
}

/// The envelope answering `ping`.
pub open spec fn ping_envelope(id: i64) -> Seq<char> {
    "{\"jsonrpc\":\"2.0\",\"id\":"@ + int_text(id as int) + ",\"result\":{}}"@
}

/// Builds the framed answer to `ping`.
pub fn build_ping_response(id: i64) -> (r: String)
    ensures
        r@ == framed(ping_envelope(id)),
{
    let mut e = String::from_str("{\"jsonrpc\":\"2.0\",\"id\":");
    push_int(&mut e, id);
    e.append(",\"result\":{}}");
    assert(e@ =~= ping_envelope(id));
    frame(e.as_str())
}

/// No character of `s` is a newline.
pub open spec fn no_newline(s: Seq<char>) -> bool {
    forall|i: int| 0 <= i < s.len() ==> s[i] != '\n'
}

proof fn lemma_no_newline_concat(a: Seq<char>, b: Seq<char>)
    requires
        no_newline(a),
        no_newline(b),
    ensures
        no_newline(a + b),
{
    assert forall|i: int| 0 <= i < (a + b).len() implies (a + b)[i] != '\n' by {
        if i >= a.len() {
            assert((a + b)[i] == b[i - a.len()]);
        }
    }
}

proof fn lemma_escaped_no_newline(s: Seq<char>)
    ensures
        no_newline(escaped(s)),
    decreases s.len(),
{
    if s.len() > 0 {
        lemma_escaped_no_newline(s.drop_last());
        let c = s.last();
        assert(no_newline(escape_char(c)));
        lemma_no_newline_concat(escaped(s.drop_last()), escape_char(c));
    }
}

proof fn lemma_digits_no_newline(n: nat)
    ensures
        no_newline(nat_digits(n)),
    decreases n,
{
    if n >= 10 {
        lemma_digits_no_newline(n / 10);
        assert(no_newline(seq![digit_char(n % 10)]));
        assert(nat_digits(n) == nat_digits(n / 10) + seq![digit_char(n % 10)]);
        lemma_no_newline_concat(nat_digits(n / 10), seq![digit_char(n % 10)]);
    }
}

proof fn lemma_int_text_no_newline(n: int)
    ensures
        no_newline(int_text(n)),
{
    if n < 0 {
        lemma_digits_no_newline((-n) as nat);
        lemma_no_newline_concat(seq!['-'], nat_digits((-n) as nat));
    } else {
        lemma_digits_no_newline(n as nat);
    }
}

/// Framing a tool's result gives one event-stream record: it starts with
/// `data: `, ends with two newlines, and holds no other newline, so there is
/// no record separator before its end. This holds for every JSON output
/// without a raw newline, which is how compact JSON is written.
pub proof fn lemma_framed_result_is_one_record(response: Seq<char>, id: i64)
    requires
        no_newline(response),
    ensures
        framed(execute_envelope(response, id)).take("data: "@.len() as int) == "data: "@,
        framed(execute_envelope(response, id)).len() >= 8,
        framed(execute_envelope(response, id)).last() == '\n',
        framed(execute_envelope(response, id))[framed(execute_envelope(response, id)).len() - 2]
            == '\n',
        forall|i: int|
            0 <= i < framed(execute_envelope(response, id)).len() - 2 ==> framed(
                execute_envelope(response, id),
            )[i] != '\n',
{
    reveal_strlit("data: ");
    reveal_strlit("\n\n");
    reveal_strlit("{\"jsonrpc\":\"2.0\",\"id\":");
    reveal_strlit(",\"result\":{\"content\":[{\"type\":\"text\",\"text\":");
    reveal_strlit("}],\"structuredContent\":");
    reveal_strlit(",\"isError\":false}}");
    let l1 = "{\"jsonrpc\":\"2.0\",\"id\":"@;
    let l2 = ",\"result\":{\"content\":[{\"type\":\"text\",\"text\":"@;
    let l3 = "}],\"structuredContent\":"@;
    let l4 = ",\"isError\":false}}"@;
    let e = execute_envelope(response, id);
    assert(no_newline(l1));
    assert(no_newline(l2));
    assert(no_newline(l3));
    assert(no_newline(l4));
    assert(no_newline("data: "@));
    lemma_int_text_no_newline(id as int);
    lemma_escaped_no_newline(response);
    assert(no_newline(seq!['"']));
    lemma_no_newline_concat(seq!['"'], escaped(response));
    lemma_no_newline_concat(seq!['"'] + escaped(response), seq!['"']);
    lemma_no_newline_concat(l1, int_text(id as int));
    lemma_no_newline_concat(l1 + int_text(id as int), l2);
    lemma_no_newline_concat(l1 + int_text(id as int) + l2, quoted(response));
    lemma_no_newline_concat(l1 + int_text(id as int) + l2 + quoted(response), l3);
    lemma_no_newline_concat(l1 + int_text(id as int) + l2 + quoted(response) + l3, response);
    lemma_no_newline_concat(l1 + int_text(id as int) + l2 + quoted(response) + l3 + response, l4);
    lemma_no_newline_concat("data: "@, e);
    let r = framed(e);
    assert(r == ("data: "@ + e) + "\n\n"@);
    assert(r.take("data: "@.len() as int) =~= "data: "@);
    assert forall|i: int| 0 <= i < r.len() - 2 implies r[i] != '\n' by {
        assert(r[i] == ("data: "@ + e)[i]);
    }
}

} // verus!
