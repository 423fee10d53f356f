//! Request bodies: the top-level protocol fields, and the operation that
//! the method names.
use vstd::prelude::*;
use crate::scan::{
    atom_end, ends_atom, members, object_members, scan_object, skip_ws, spans_valid, spans_view,
    string_close, value_end,
};
use crate::json_string::{unescape, unescape_span};
use crate::text::{chars_of, digit_char, int_text, nat_digits, string_of};

verus! {

/// The span of the value of the last member whose key is `key`.
pub open spec fn last_value(s: Seq<char>, ms: Seq<(int, int, int, int)>, key: Seq<char>) -> Option<
    (int, int),
>
    decreases ms.len(),
{
    if ms.len() == 0 {
        None
    } else {
        let m = ms.last();
        if s.subrange(m.0, m.1) == key {
            Some((m.2, m.3))
        } else {
            last_value(s, ms.drop_last(), key)
        }
    }
}

/// The text a member's value stands for: nothing for `null`, the
/// characters between the quotes for a string, the value's text otherwise.
pub open spec fn text_span(s: Seq<char>, v: (int, int)) -> Option<(int, int)> {
    if s.subrange(v.0, v.1) == seq!['n', 'u', 'l', 'l'] {
        None
    } else if v.1 - v.0 >= 2 && s[v.0] == '"' {
        Some((v.0 + 1, v.1 - 1))
    } else {
        Some(v)
    }
}

/// The text of top-level member `key`, if it is there and not `null`.
pub open spec fn field(s: Seq<char>, ms: Seq<(int, int, int, int)>, key: Seq<char>) -> Option<
    Seq<char>,
> {
    match last_value(s, ms, key) {
        None => None,
        Some(v) => match text_span(s, v) {
            None => None,
            Some(t) => Some(s.subrange(t.0, t.1)),
        },
    }
}

/// The characters of the string value of member `key` of the object held
/// in `p`, escapes decoded; `None` when `p` is no object, the member is no
/// string or an escape in it is malformed.
pub open spec fn string_member(p: Seq<char>, key: Seq<char>) -> Option<Seq<char>> {
    match object_members(p) {
        None => None,
        Some(ms) => match last_value(p, ms, key) {
            Some(v) => if v.1 - v.0 >= 2 && p[v.0] == '"' {
                unescape(p.subrange(v.0 + 1, v.1 - 1))
            } else {
                None
            },
            None => None,
        },
    }
}

/// The text of the value of member `key` of the object held in `p`.
pub open spec fn raw_member(p: Seq<char>, key: Seq<char>) -> Option<Seq<char>> {
    match object_members(p) {
        None => None,
        Some(ms) => match last_value(p, ms, key) {
            Some(v) => Some(p.subrange(v.0, v.1)),
            None => None,
        },
    }
}

pub open spec fn is_digit(c: char) -> bool {
    '0' <= c <= '9'
}

pub open spec fn all_digits(t: Seq<char>) -> bool {
    forall|i: int| 0 <= i < t.len() ==> is_digit(#[trigger] t[i])
}

/// The number that the decimal digits `t` write.
pub open spec fn digits_value(t: Seq<char>) -> int
    decreases t.len(),
{
    if t.len() == 0 {
        0
    } else {
        digits_value(t.drop_last()) * 10 + (t.last() as int - '0' as int)
    }
}

/// The integer that `t` writes: an optional sign, then one or more digits.
pub open spec fn int_literal(t: Seq<char>) -> Option<int> {
    if t.len() > 0 && (t[0] == '-' || t[0] == '+') {
        let d = t.drop_first();
        if d.len() > 0 && all_digits(d) {
            Some(
                if t[0] == '-' {
                    -digits_value(d)
                } else {
                    digits_value(d)
                },
            )
        } else {
            None
        }
    } else if t.len() > 0 && all_digits(t) {
        Some(digits_value(t))
    } else {
        None
    }
}

/// The `i64` that `t` writes, if it writes one in range.
pub open spec fn i64_literal(t: Seq<char>) -> Option<i64> {
    match int_literal(t) {
        Some(n) => if i64::MIN <= n <= i64::MAX {
            Some(n as i64)
        } else {
            None
        },
        None => None,
    }
}

proof fn lemma_digits_value_grows(t: Seq<char>, k: int)
    requires
        0 <= k <= t.len(),
        all_digits(t),
    ensures
        digits_value(t) >= digits_value(t.take(k)) >= 0,
    decreases t.len(),
{
    if t.len() > 0 {
        if k == t.len() {
            assert(t.take(k) =~= t);
            lemma_digits_value_grows(t.drop_last(), t.len() - 1);
            assert(t.drop_last().take(t.len() - 1) =~= t.drop_last());
        } else {
            lemma_digits_value_grows(t.drop_last(), k);
            assert(t.drop_last().take(k) =~= t.take(k));
        }
    } else {
        assert(t.take(k) =~= t);
    }
}

/// Reads the integer written by `v[from..to]`.
fn parse_i64(v: &Vec<char>, from: usize, to: usize) -> (r: Option<i64>)
    requires
        from <= to <= v.len(),
    ensures
        r == i64_literal(v@.subrange(from as int, to as int)),
{
    let ghost t = v@.subrange(from as int, to as int);
    if from == to {
        return None;
    }
    let neg = v[from] == '-';
    let start = if v[from] == '-' || v[from] == '+' {
        from + 1
    } else {
        from
    };
    let ghost d = v@.subrange(start as int, to as int);
    assert(t[0] == v@[from as int]);
    proof {
        if start > from {
            assert(t.drop_first() =~= d);
        } else {
            assert(t =~= d);
        }
    }
    if start == to {
        return None;
    }
    // magnitude, as long as it stays within 2^63
    let limit: u64 = 9223372036854775808u64;
    let mut mag: u64 = 0;
    let mut i = start;
    while i < to
        invariant
            start <= i <= to <= v.len(),
            d == v@.subrange(start as int, to as int),
            t == v@.subrange(from as int, to as int),
            t.len() > 0,
            start == from || start == from + 1,
            start > from ==> t.drop_first() == d && (t[0] == '-' || t[0] == '+'),
            start == from ==> t == d && !(t[0] == '-' || t[0] == '+'),
            neg == (t[0] == '-'),
            d.len() > 0,
            all_digits(d.take(i - start)),
            mag as int == digits_value(d.take(i - start)),
            mag <= limit,
            limit == 9223372036854775808u64,
        decreases to - i,
    {
        let c = v[i];
        if !('0' <= c && c <= '9') {
            assert(d[i - start] == c);
            assert(!is_digit(d[i - start]));
            assert(!all_digits(d));
            if start > from {
                assert(!all_digits(t.drop_first()));
            } else {
                assert(!all_digits(t));
            }
            assert(int_literal(t) is None);
            return None;
        }
        let digit = (c as u32 - '0' as u32) as u64;
        assert(digit <= 9);
        proof {
            assert(d.take(i - start + 1).drop_last() =~= d.take(i - start));
            assert(d.take(i - start + 1).last() == c);
        }
        if mag > (limit - digit) / 10 {
            // too large for an i64, or no literal at all
            proof {
                let taken = d.take(i - start + 1);
                assert(digits_value(taken) == mag * 10 + digit);
                assert(mag * 10 + digit > limit) by (nonlinear_arith)
                    requires
                        mag > (limit - digit) / 10,
                        digit <= 9,
                        limit >= digit,
                ;
                if all_digits(d) {
                    lemma_digits_value_grows(d, i - start + 1);
                }
            }
            return None;
        }
        mag = mag * 10 + digit;
        i = i + 1;
    }
    assert(d.take(i - start) =~= d);
    if neg {
        if mag == limit {
            Some(i64::MIN)
        } else {
            Some(-(mag as i64))
        }
    } else {
        if mag >= limit {
            None
        } else {
            Some(mag as i64)
        }
    }
}


/// Why a request body was refused.
#[derive(Debug, Clone, Copy, PartialEq, Eq, Structural)]
pub enum ParseError {
    /// The body is not a well-formed object.
    Malformed,
    /// `id` is there but is no integer in the range of `i64`.
    IdNotNumber,
    /// `jsonrpc` is missing or `null`.
    MissingVersion,
    /// `method` is missing or `null`.
    MissingMethod,
    /// The parameters of a known method lack what it needs.
    InvalidParams,
}

/// The text reported to the client for a refused body.
pub open spec fn parse_error_text(e: ParseError) -> Seq<char> {
    match e {
        ParseError::Malformed => "Body is not a json object"@,
        ParseError::IdNotNumber => "Id is not number"@,
        ParseError::MissingVersion => "Version is null"@,
        ParseError::MissingMethod => "Method is null"@,
        ParseError::InvalidParams => "Can not deserialize params"@,
    }
}

impl ParseError {
    /// The text reported to the client for this error.
    pub fn message(&self) -> (r: String)
        ensures
            r@ == parse_error_text(*self),
    {
        match self {
            ParseError::Malformed => String::from_str("Body is not a json object"),
            ParseError::IdNotNumber => String::from_str("Id is not number"),
            ParseError::MissingVersion => String::from_str("Version is null"),
            ParseError::MissingMethod => String::from_str("Method is null"),
            ParseError::InvalidParams => String::from_str("Can not deserialize params"),
        }
    }
}

/// Parameters of `initialize`.
#[derive(Debug)]
pub struct InitializeMpcContract {
    pub protocol_version: String,
}

/// Parameters of `tools/call`: the tool's name and the JSON text of its
/// arguments.
#[derive(Debug)]
pub struct ExecuteToolCallModel {
    pub name: String,
    pub arguments: String,
}

/// An operation as the contracts see it.
pub enum OperationView {
    Initialize(Seq<char>),
    ResourcesList,
    NotificationsInitialize,
    ToolsList,
    ExecuteToolCall(Seq<char>, Seq<char>),
    Ping,
    Other(Seq<char>, Seq<char>),
}

/// A protocol operation.
#[derive(Debug)]
pub enum McpInputData {
    Initialize(InitializeMpcContract),
    ResourcesList,
    NotificationsInitialize,
    ToolsList,
    ExecuteToolCall(ExecuteToolCallModel),
    Ping,
    /// A method this middleware does not know, with its parameters' text.
    Other { method: String, data: String },
}

impl McpInputData {
    pub open spec fn view(&self) -> OperationView {
        match self {
            McpInputData::Initialize(c) => OperationView::Initialize(c.protocol_version@),
            McpInputData::ResourcesList => OperationView::ResourcesList,
            McpInputData::NotificationsInitialize => OperationView::NotificationsInitialize,
            McpInputData::ToolsList => OperationView::ToolsList,
            McpInputData::ExecuteToolCall(m) => OperationView::ExecuteToolCall(m.name@, m.arguments@),
            McpInputData::Ping => OperationView::Ping,
            McpInputData::Other { method, data } => OperationView::Other(method@, data@),
        }
    }
}

/// The operation that method `m` with parameters text `p` stands for.
pub open spec fn classify(m: Seq<char>, p: Seq<char>) -> Result<OperationView, ParseError> {
    if m == "initialize"@ {
        match string_member(p, "protocolVersion"@) {
            Some(v) => Ok(OperationView::Initialize(v)),
            None => Err(ParseError::InvalidParams),
        }
    } else if m == "notifications/initialized"@ {
        Ok(OperationView::NotificationsInitialize)
    } else if m == "resources/list"@ {
        Ok(OperationView::ResourcesList)
    } else if m == "tools/list"@ {
        Ok(OperationView::ToolsList)
    } else if m == "ping"@ {
        Ok(OperationView::Ping)
    } else if m == "tools/call"@ {
        match (string_member(p, "name"@), raw_member(p, "arguments"@)) {
            (Some(n), Some(a)) => Ok(OperationView::ExecuteToolCall(n, a)),
            _ => Err(ParseError::InvalidParams),
        }
    } else {
        Ok(OperationView::Other(m, p))
    }
}

/// What a request body holds: the protocol version, the correlation id
/// (0 when absent) and the operation; or why it is refused.
pub open spec fn parse_payload(s: Seq<char>) -> Result<(Seq<char>, i64, OperationView), ParseError> {
    match object_members(s) {
        None => Err(ParseError::Malformed),
        Some(ms) => {
            let id = match field(s, ms, "id"@) {
                None => Some(0i64),
                Some(t) => i64_literal(t),
            };
            match id {
                None => Err(ParseError::IdNotNumber),
                Some(id) => match field(s, ms, "jsonrpc"@) {
                    None => Err(ParseError::MissingVersion),
                    Some(version) => match field(s, ms, "method"@) {
                        None => Err(ParseError::MissingMethod),
                        Some(m) => {
                            let p = match field(s, ms, "params"@) {
                                Some(p) => p,
                                None => "{}"@,
                            };
                            match classify(m, p) {
                                Ok(op) => Ok((version, id, op)),
                                Err(e) => Err(e),
                            }
                        },
                    },
                },
            }
        },
    }
}

fn span_equals(v: &Vec<char>, a: usize, b: usize, key: &Vec<char>) -> (r: bool)
    requires
        a <= b <= v.len(),
    ensures
        r == (v@.subrange(a as int, b as int) == key@),
{
    if b - a != key.len() {
        return false;
    }
    let mut i: usize = 0;
    while i < key.len()
        invariant
            i <= key.len() == b - a,
            b <= v.len(),
            forall|k: int| 0 <= k < i ==> v@[a + k] == key@[k],
        decreases key.len() - i,
    {
        if v[a + i] != key[i] {
            assert(v@.subrange(a as int, b as int)[i as int] != key@[i as int]);
            return false;
        }
        i = i + 1;
    }
    assert(v@.subrange(a as int, b as int) =~= key@);
    true
}

/// The span of the value of the last member of `ms` whose key is `key`.
fn last_value_at(v: &Vec<char>, ms: &Vec<(usize, usize, usize, usize)>, key: &Vec<char>) -> (r:
    Option<(usize, usize)>)
    requires
        spans_valid(v@, spans_view(ms@)),
    ensures
        r matches Some(p) ==> last_value(v@, spans_view(ms@), key@) == Some((p.0 as int, p.1 as int))
            && p.0 <= p.1 <= v.len(),
        r is None ==> last_value(v@, spans_view(ms@), key@) is None,
{
    let ghost sv = spans_view(ms@);
    let mut found: Option<(usize, usize)> = None;
    let mut i: usize = 0;
    assert(sv.take(0) =~= Seq::<(int, int, int, int)>::empty());
    while i < ms.len()
        invariant
            i <= ms.len(),
            sv == spans_view(ms@),
            spans_valid(v@, sv),
            found matches Some(p) ==> last_value(v@, sv.take(i as int), key@) == Some(
                (p.0 as int, p.1 as int),
            ) && p.0 <= p.1 <= v.len(),
            found is None ==> last_value(v@, sv.take(i as int), key@) is None,
        decreases ms.len() - i,
    {
        let m = ms[i];
        assert(sv[i as int] == (m.0 as int, m.1 as int, m.2 as int, m.3 as int));
        assert(sv.take(i + 1).drop_last() =~= sv.take(i as int));
        assert(sv.take(i + 1).last() == sv[i as int]);
        if span_equals(v, m.0, m.1, key) {
            found = Some((m.2, m.3));
        }
        i = i + 1;
    }
    assert(sv.take(i as int) =~= sv);
    found
}

/// The span of the text of member `key`: see `field`.
fn field_span(v: &Vec<char>, ms: &Vec<(usize, usize, usize, usize)>, key: &str) -> (r: Option<
    (usize, usize),
>)
    requires
        spans_valid(v@, spans_view(ms@)),
    ensures
        r matches Some(p) ==> p.0 <= p.1 <= v.len() && field(v@, spans_view(ms@), key@) == Some(
            v@.subrange(p.0 as int, p.1 as int),
        ),
        r is None ==> field(v@, spans_view(ms@), key@) is None,
{
    let k = chars_of(key);
    match last_value_at(v, ms, &k) {
        None => None,
        Some((a, b)) => {
            let null = vec!['n', 'u', 'l', 'l'];
            assert(null@ =~= seq!['n', 'u', 'l', 'l']);
            if span_equals(v, a, b, &null) {
                None
            } else if b - a >= 2 && v[a] == '"' {
                Some((a + 1, b - 1))
            } else {
                Some((a, b))
            }
        },
    }
}

/// The span of member `key` of the object held in `p`, with that object's
/// members.
fn member_span(p: &Vec<char>, key: &str) -> (r: Option<(usize, usize)>)
    ensures
        r matches Some(x) ==> object_members(p@) is Some && last_value(
            p@,
            object_members(p@)->0,
            key@,
        ) == Some((x.0 as int, x.1 as int)) && x.0 <= x.1 <= p.len(),
        r is None ==> object_members(p@) is None || last_value(p@, object_members(p@)->0, key@) is None,
{
    match scan_object(p) {
        None => None,
        Some(ms) => {
            let k = chars_of(key);
            last_value_at(p, &ms, &k)
        },
    }
}

impl McpInputData {
    /// The operation that `method` names, decoding what it needs from the
    /// JSON text `params`. Unknown methods give `Other`; a known method
    /// whose parameters lack what it needs gives `InvalidParams`.
    pub fn from_str(method: &str, params: &str) -> (r: Result<McpInputData, ParseError>)
        ensures
            r matches Ok(d) ==> classify(method@, params@) == Ok::<OperationView, ParseError>(d.view()),
            r matches Err(e) ==> classify(method@, params@) == Err::<OperationView, ParseError>(e),
    {
        let m = String::from_str(method);
        if m == String::from_str("initialize") {
            let p = chars_of(params);
            match member_span(&p, "protocolVersion") {
                Some((a, b)) => {
                    if b - a >= 2 && p[a] == '"' {
                        let v = match unescape_span(&p, a + 1, b - 1) {
                            Some(v) => v,
                            None => {
                                return Err(ParseError::InvalidParams);
                            },
                        };
                        return Ok(
                            McpInputData::Initialize(InitializeMpcContract { protocol_version: v }),
                        );
                    }
                    Err(ParseError::InvalidParams)
                },
                None => Err(ParseError::InvalidParams),
            }
        } else if m == String::from_str("notifications/initialized") {
            Ok(McpInputData::NotificationsInitialize)
        } else if m == String::from_str("resources/list") {
            Ok(McpInputData::ResourcesList)
        } else if m == String::from_str("tools/list") {
            Ok(McpInputData::ToolsList)
        } else if m == String::from_str("ping") {
            Ok(McpInputData::Ping)
        } else if m == String::from_str("tools/call") {
            let p = chars_of(params);
            let name = match member_span(&p, "name") {
                Some((a, b)) => {
                    if b - a >= 2 && p[a] == '"' {
                        match unescape_span(&p, a + 1, b - 1) {
                            Some(n) => n,
                            None => {
                                return Err(ParseError::InvalidParams);
                            },
                        }
                    } else {
                        return Err(ParseError::InvalidParams);
                    }
                },
                None => {
                    return Err(ParseError::InvalidParams);
                },
            };
            match member_span(&p, "arguments") {
                Some((a, b)) => {
                    let arguments = string_of(&p, a, b);
                    Ok(McpInputData::ExecuteToolCall(ExecuteToolCallModel { name, arguments }))
                },
                None => Err(ParseError::InvalidParams),
            }
        } else {
            Ok(McpInputData::Other { method: m, data: String::from_str(params) })
        }
    }
}

/// A parsed request: protocol version, correlation id and operation.
#[derive(Debug)]
pub struct McpInputPayload {
    pub _version: String,
    pub id: i64,
    pub data: McpInputData,
}

impl McpInputPayload {
    /// Reads the top-level `jsonrpc`, `method`, `id` and `params` members of
    /// a request body in one forward scan, then classifies the method.
    /// A missing `id` is 0; missing `params` are an empty object; where a member
    /// occurs twice the last one counts.
    pub fn try_parse(src: &str) -> (r: Result<McpInputPayload, ParseError>)
        ensures
            r matches Ok(p) ==> parse_payload(src@) == Ok::<
                (Seq<char>, i64, OperationView),
                ParseError,
            >((p._version@, p.id, p.data.view())),
            r matches Err(e) ==> parse_payload(src@) == Err::<
                (Seq<char>, i64, OperationView),
                ParseError,
            >(e),
    {
        let v = chars_of(src);
        let ms = match scan_object(&v) {
            Some(ms) => ms,
            None => {
                return Err(ParseError::Malformed);
            },
        };
        let id = match field_span(&v, &ms, "id") {
            None => 0i64,
            Some((a, b)) => match parse_i64(&v, a, b) {
                Some(n) => n,
                None => {
                    return Err(ParseError::IdNotNumber);
                },
            },
        };
        let version = match field_span(&v, &ms, "jsonrpc") {
            None => {
                return Err(ParseError::MissingVersion);
            },
            Some((a, b)) => string_of(&v, a, b),
        };
        let method = match field_span(&v, &ms, "method") {
            None => {
                return Err(ParseError::MissingMethod);
            },
            Some((a, b)) => string_of(&v, a, b),
        };
        let params = match field_span(&v, &ms, "params") {
            None => String::from_str("{}"),
            Some((a, b)) => string_of(&v, a, b),
        };
        match McpInputData::from_str(method.as_str(), params.as_str()) {
            Ok(data) => Ok(McpInputPayload { _version: version, id, data }),
            Err(e) => Err(e),
        }
    }
}

/// No quote and no backslash: the text stands between quotes as it is.
pub open spec fn plain(t: Seq<char>) -> bool {
    forall|i: int| 0 <= i < t.len() ==> t[i] != '"' && t[i] != '\\'
}

/// A request body with members `jsonrpc`, `method` and `id`, in that order.
#[verifier::opaque]
pub open spec fn request_body(version: Seq<char>, method: Seq<char>, id: i64) -> Seq<char> {
    "{\"jsonrpc\":\""@ + version + "\",\"method\":\""@ + method + "\",\"id\":"@ + int_text(id as int)
        + "}"@
}

/// A request body with members `jsonrpc` and `id` only.
pub open spec fn body_without_method(version: Seq<char>, id: i64) -> Seq<char> {
    "{\"jsonrpc\":\""@ + version + "\",\"id\":"@ + int_text(id as int) + "}"@
}

proof fn lemma_string_close_plain(s: Seq<char>, i: int, n: int)
    requires
        0 <= i,
        0 <= n,
        i + n < s.len(),
        forall|k: int| i <= k < i + n ==> s[k] != '"' && s[k] != '\\',
        s[i + n] == '"',
    ensures
        string_close(s, i) == Some(i + n),
    decreases n,
{
    if n > 0 {
        lemma_string_close_plain(s, i + 1, n - 1);
    }
}

proof fn lemma_atom_end_run(s: Seq<char>, i: int, n: int)
    requires
        0 <= i,
        0 <= n,
        i + n < s.len(),
        forall|k: int| i <= k < i + n ==> !ends_atom(s[k]),
        ends_atom(s[i + n]),
    ensures
        atom_end(s, i) == i + n,
    decreases n,
{
    if n > 0 {
        lemma_atom_end_run(s, i + 1, n - 1);
    }
}

proof fn lemma_nat_digits(n: nat)
    ensures
        nat_digits(n).len() > 0,
        all_digits(nat_digits(n)),
        digits_value(nat_digits(n)) == n,
    decreases n,
{
    assert((digit_char(n % 10) as int) - ('0' as int) == n % 10);
    if n < 10 {
        assert(nat_digits(n) == seq![digit_char(n)]);
        assert(nat_digits(n).drop_last() =~= Seq::<char>::empty());
        assert(digits_value(Seq::<char>::empty()) == 0);
        assert(nat_digits(n).last() == digit_char(n));
        assert(n % 10 == n);
    } else {
        lemma_nat_digits(n / 10);
        let t = nat_digits(n);
        assert(t.drop_last() == nat_digits(n / 10));
        assert(t.last() == digit_char(n % 10));
        assert(digits_value(t) == digits_value(nat_digits(n / 10)) * 10 + (n % 10));
        assert((n / 10) * 10 + n % 10 == n);
    }
}

proof fn lemma_int_text(n: i64)
    ensures
        int_text(n as int).len() > 0,
        forall|k: int| 0 <= k < int_text(n as int).len() ==> (#[trigger] int_text(n as int)[k] == '-'
            || is_digit(int_text(n as int)[k])),
        int_text(n as int)[0] != 'n',
        i64_literal(int_text(n as int)) == Some(n),
{
    if n < 0 {
        let m = (-n) as nat;
        lemma_nat_digits(m);
        let t = int_text(n as int);
        assert(t.drop_first() =~= nat_digits(m));
        assert forall|k: int| 0 <= k < t.len() implies (#[trigger] t[k] == '-' || is_digit(t[k])) by {
            if k > 0 {
                assert(t[k] == nat_digits(m)[k - 1]);
            }
        }
    } else {
        lemma_nat_digits(n as nat);
    }
}

/// Facts about the member of `s` that starts at `k` (its key's opening
/// quote) when the key and a string value are plain and are followed by
/// `sep` (`,` or `}`), with no whitespace.
proof fn lemma_string_member(s: Seq<char>, k: int, key: Seq<char>, val: Seq<char>)
    requires
        0 <= k,
        k + key.len() + val.len() + 5 < s.len(),
        plain(key),
        plain(val),
        s.subrange(k, k + key.len() + val.len() + 5) == seq!['"'] + key + seq!['"', ':', '"'] + val
            + seq!['"'],
    ensures
        skip_ws(s, k) == k,
        string_close(s, k + 1) == Some(k + 1 + key.len()),
        skip_ws(s, k + key.len() + 2) == k + key.len() + 2,
        s[k + key.len() + 2] == ':',
        skip_ws(s, k + key.len() + 3) == k + key.len() + 3,
        value_end(s, k + key.len() + 3) == Some(k + key.len() + val.len() + 5),
        s.subrange(k + 1, k + 1 + key.len()) == key,
        s.subrange(k + key.len() + 4, k + key.len() + val.len() + 4) == val,
        s[k + key.len() + 3] == '"',
{
    let w = seq!['"'] + key + seq!['"', ':', '"'] + val + seq!['"'];
    let e = k + key.len() + val.len() + 5;
    assert forall|j: int| 0 <= j < w.len() implies s[k + j] == #[trigger] w[j] by {
        assert(s.subrange(k, e)[j] == w[j]);
    }
    assert(s[k] == w[0]);
    assert(s[k + key.len() + 1] == w[key.len() as int + 1]);
    assert(s[k + key.len() + 2] == w[key.len() as int + 2]);
    assert(s[k + key.len() + 3] == w[key.len() as int + 3]);
    assert(s[e - 1] == w[key.len() + val.len() as int + 4]);
    assert forall|j: int| k + 1 <= j < k + 1 + key.len() implies s[j] != '"' && s[j] != '\\' by {
        assert(s[j] == w[j - k]);
        assert(w[j - k] == key[j - k - 1]);
    }
    lemma_string_close_plain(s, k + 1, key.len() as int);
    assert forall|j: int| k + key.len() + 4 <= j < e - 1 implies s[j] != '"' && s[j] != '\\' by {
        assert(s[j] == w[j - k]);
        assert(w[j - k] == val[j - k - key.len() - 4]);
    }
    lemma_string_close_plain(s, k + key.len() + 4, val.len() as int);
    assert(s.subrange(k + 1, k + 1 + key.len()) =~= key) by {
        assert forall|j: int| 0 <= j < key.len() implies s.subrange(k + 1, k + 1 + key.len())[j]
            == key[j] by {
            assert(s[k + 1 + j] == w[1 + j]);
        }
    }
    assert(s.subrange(k + key.len() + 4, k + key.len() + val.len() + 4) =~= val) by {
        assert forall|j: int| 0 <= j < val.len() implies s.subrange(
            k + key.len() + 4,
            k + key.len() + val.len() + 4,
        )[j] == val[j] by {
            assert(s[k + key.len() + 4 + j] == w[key.len() + 4 + j]);
        }
    }
}

/// The last member of a body: `"id":` then the integer text of `id` and
/// the closing brace.
proof fn lemma_id_member(s: Seq<char>, k: int, id: i64)
    requires
        0 <= k,
        k + 5 + int_text(id as int).len() < s.len(),
        s.subrange(k, k + 5) == seq!['"', 'i', 'd', '"', ':'],
        s.subrange(k + 5, k + 5 + int_text(id as int).len()) == int_text(id as int),
        s[k + 5 + int_text(id as int).len()] == '}',
    ensures
        members(s, k) == Some(seq![(k + 1, k + 3, k + 5, k + 5 + int_text(id as int).len())]),
        s.subrange(k + 1, k + 3) == seq!['i', 'd'],
{
    let t = int_text(id as int);
    let e = k + 5 + t.len();
    lemma_int_text(id);
    assert(s[k] == s.subrange(k, k + 5)[0]);
    assert(s[k + 1] == s.subrange(k, k + 5)[1]);
    assert(s[k + 2] == s.subrange(k, k + 5)[2]);
    assert(s[k + 3] == s.subrange(k, k + 5)[3]);
    assert(s[k + 4] == s.subrange(k, k + 5)[4]);
    lemma_string_close_plain(s, k + 1, 2);
    assert forall|j: int| k + 5 <= j < e implies !ends_atom(s[j]) by {
        assert(s[j] == t[j - k - 5]);
        assert(t[j - k - 5] == '-' || is_digit(t[j - k - 5]));
    }
    assert(s[k + 5] == t[0]);
    lemma_atom_end_run(s, k + 5, t.len() as int);
    assert(value_end(s, k + 5) == Some(e));
    assert(s.subrange(k + 1, k + 3) =~= seq!['i', 'd']);
}

/// The text of the `id` member, as `field` gives it.
proof fn lemma_id_text(s: Seq<char>, a: int, id: i64)
    requires
        0 <= a,
        a + int_text(id as int).len() <= s.len(),
        s.subrange(a, a + int_text(id as int).len()) == int_text(id as int),
    ensures
        text_span(s, (a, a + int_text(id as int).len())) == Some((a, a + int_text(id as int).len())),
{
    let t = int_text(id as int);
    lemma_int_text(id);
    assert(s[a] == t[0]);
    assert(t[0] == '-' || is_digit(t[0]));
    if s.subrange(a, a + t.len()) == seq!['n', 'u', 'l', 'l'] {
        assert(t[0] == 'n');
    }
}

/// The text of a plain string member's value, as `field` gives it.
proof fn lemma_string_text(s: Seq<char>, a: int, val: Seq<char>)
    requires
        0 <= a,
        a + val.len() + 2 <= s.len(),
        s[a] == '"',
        s.subrange(a + 1, a + 1 + val.len()) == val,
    ensures
        text_span(s, (a, a + val.len() + 2)) == Some((a + 1, a + 1 + val.len())),
{
    if s.subrange(a, a + val.len() + 2) == seq!['n', 'u', 'l', 'l'] {
        assert(s.subrange(a, a + val.len() + 2)[0] == s[a]);
    }
}

proof fn lemma_lookup(s: Seq<char>, ms: Seq<(int, int, int, int)>, key: Seq<char>, j: int)
    requires
        0 <= j < ms.len(),
        s.subrange(ms[j].0, ms[j].1) == key,
        forall|i: int| j < i < ms.len() ==> s.subrange(ms[i].0, ms[i].1) != key,
    ensures
        last_value(s, ms, key) == Some((ms[j].2, ms[j].3)),
    decreases ms.len(),
{
    if j < ms.len() - 1 {
        lemma_lookup(s, ms.drop_last(), key, j);
    }
}

proof fn lemma_lookup_absent(s: Seq<char>, ms: Seq<(int, int, int, int)>, key: Seq<char>)
    requires
        forall|i: int| 0 <= i < ms.len() ==> s.subrange(ms[i].0, ms[i].1) != key,
    ensures
        last_value(s, ms, key) is None,
    decreases ms.len(),
{
    if ms.len() > 0 {
        lemma_lookup_absent(s, ms.drop_last(), key);
    }
}

/// The members of `request_body`.
#[verifier::rlimit(40)]
proof fn lemma_request_members(version: Seq<char>, method: Seq<char>, id: i64)
    requires
        plain(version),
        plain(method),
    ensures
        ({
            let s = request_body(version, method, id);
            let lv = version.len() as int;
            let lm = method.len() as int;
            let k2 = 14 + lv;
            let k3 = k2 + 6 + lm + 6;
            let t = int_text(id as int);
            &&& object_members(s) == Some(
                seq![(2int, 9int, 11int, 13 + lv), (k2 + 1, k2 + 7, k2 + 9, k2 + 11 + lm), (k3 + 1, k3 + 3, k3 + 5, k3 + 5 + t.len())],
            )
            &&& s.subrange(2, 9) == "jsonrpc"@
            &&& s.subrange(k2 + 1, k2 + 7) == "method"@
            &&& s.subrange(k3 + 1, k3 + 3) == "id"@
            &&& s[11] == '"'
            &&& s.subrange(12, 12 + lv) == version
            &&& s[k2 + 9] == '"'
            &&& s.subrange(k2 + 10, k2 + 10 + lm) == method
            &&& s.subrange(k3 + 5, k3 + 5 + t.len()) == t
            &&& k3 + 5 + t.len() < s.len()
        }),
{
    reveal(request_body);
    reveal_strlit("{\"jsonrpc\":\"");
    reveal_strlit("\",\"method\":\"");
    reveal_strlit("\",\"id\":");
    reveal_strlit("}");
    reveal_strlit("jsonrpc");
    reveal_strlit("method");
    reveal_strlit("id");
    let s = request_body(version, method, id);
    let t = int_text(id as int);
    lemma_int_text(id);
    let lv = version.len() as int;
    let lm = method.len() as int;
    let jsonrpc = "jsonrpc"@;
    let meth = "method"@;
    assert(s.len() == 12 + lv + 12 + lm + 7 + t.len() + 1);
    assert(plain(jsonrpc));
    assert(plain(meth));
    assert(s.subrange(1, 1 + 7 + lv + 5) =~= seq!['"'] + jsonrpc + seq!['"', ':', '"'] + version
        + seq!['"']);
    lemma_string_member(s, 1, jsonrpc, version);
    assert(s[13 + lv] == ',');
    let k2 = 14 + lv;
    assert(s.subrange(k2, k2 + 6 + lm + 5) =~= seq!['"'] + meth + seq!['"', ':', '"'] + method
        + seq!['"']);
    lemma_string_member(s, k2, meth, method);
    assert(s[k2 + 6 + lm + 5] == ',');
    let k3 = k2 + 6 + lm + 6;
    assert(s.subrange(k3, k3 + 5) =~= seq!['"', 'i', 'd', '"', ':']);
    assert(s.subrange(k3 + 5, k3 + 5 + t.len()) =~= t);
    assert(s[k3 + 5 + t.len()] == '}');
    lemma_id_member(s, k3, id);
    let m1 = (2int, 9int, 11int, 13 + lv);
    let m2 = (k2 + 1, k2 + 7, k2 + 9, k2 + 11 + lm);
    let m3 = (k3 + 1, k3 + 3, k3 + 5, k3 + 5 + t.len());
    assert(members(s, k2) == Some(seq![m2] + seq![m3]));
    assert(members(s, 1) == Some(seq![m1] + (seq![m2] + seq![m3])));
    assert(s[0] == '{');
    assert(seq![m1] + (seq![m2] + seq![m3]) =~= seq![m1, m2, m3]);
    assert(s.subrange(k3 + 1, k3 + 3) =~= "id"@);
}

/// The parser reads `jsonrpc`, `method` and `id` exactly as written: for a
/// body with those members (plain strings and an integer), the result
/// carries that version and that id, and the operation that the method
/// names.
#[verifier::rlimit(80)]
pub proof fn lemma_parser_extracts_fields(version: Seq<char>, method: Seq<char>, id: i64)
    requires
        plain(version),
        plain(method),
    ensures
        parse_payload(request_body(version, method, id)) == match classify(method, "{}"@) {
            Ok(op) => Ok((version, id, op)),
            Err(e) => Err(e),
        },
{
    reveal_strlit("jsonrpc");
    reveal_strlit("method");
    reveal_strlit("id");
    reveal_strlit("params");
    lemma_request_members(version, method, id);
    lemma_int_text(id);
    let s = request_body(version, method, id);
    let t = int_text(id as int);
    let lv = version.len() as int;
    let lm = method.len() as int;
    let k2 = 14 + lv;
    let k3 = k2 + 6 + lm + 6;
    let ms = object_members(s)->0;
    assert("jsonrpc"@.len() == 7);
    assert("method"@.len() == 6);
    assert("id"@.len() == 2);
    assert("jsonrpc"@ != "method"@);
    assert("jsonrpc"@ != "id"@);
    assert("method"@ != "id"@);
    assert("params"@[0] != "method"@[0]);
    assert("params"@ != "method"@);
    assert("params"@ != "jsonrpc"@);
    assert("params"@ != "id"@);
    lemma_lookup(s, ms, "id"@, 2);
    lemma_lookup(s, ms, "method"@, 1);
    lemma_lookup(s, ms, "jsonrpc"@, 0);
    lemma_lookup_absent(s, ms, "params"@);
    lemma_id_text(s, k3 + 5, id);
    lemma_string_text(s, 11, version);
    lemma_string_text(s, k2 + 9, method);
    assert(field(s, ms, "id"@) == Some(t));
    assert(field(s, ms, "jsonrpc"@) == Some(version));
    assert(field(s, ms, "method"@) == Some(method));
    assert(field(s, ms, "params"@) is None);
}

/// A body without a `method` member is refused with `MissingMethod`.
#[verifier::rlimit(40)]
pub proof fn lemma_missing_method_refused(version: Seq<char>, id: i64)
    requires
        plain(version),
    ensures
        parse_payload(body_without_method(version, id)) == Err::<
            (Seq<char>, i64, OperationView),
            ParseError,
        >(ParseError::MissingMethod),
{
    reveal_strlit("{\"jsonrpc\":\"");
    reveal_strlit("\",\"id\":");
    reveal_strlit("}");
    reveal_strlit("jsonrpc");
    reveal_strlit("method");
    reveal_strlit("id");
    let s = body_without_method(version, id);
    let t = int_text(id as int);
    lemma_int_text(id);
    let lv = version.len() as int;
    let jsonrpc = "jsonrpc"@;
    assert(plain(jsonrpc));
    assert(s.subrange(1, 1 + 7 + lv + 5) =~= seq!['"'] + jsonrpc + seq!['"', ':', '"'] + version
        + seq!['"']);
    lemma_string_member(s, 1, jsonrpc, version);
    assert(s[13 + lv] == ',');
    let k3 = 14 + lv;
    assert(s.subrange(k3, k3 + 5) =~= seq!['"', 'i', 'd', '"', ':']);
    assert(s.subrange(k3 + 5, k3 + 5 + t.len()) =~= t);
    assert(s[k3 + 5 + t.len()] == '}');
    lemma_id_member(s, k3, id);
    let m1 = (2int, 9int, 11int, 13 + lv);
    let m3 = (k3 + 1, k3 + 3, k3 + 5, k3 + 5 + t.len());
    assert(members(s, 1) == Some(seq![m1] + seq![m3]));
    assert(s[0] == '{');
    let ms = seq![m1] + seq![m3];
    assert(object_members(s) == Some(ms));
    assert(ms =~= seq![m1, m3]);
    assert(s.subrange(k3 + 1, k3 + 3) =~= "id"@);
    assert(jsonrpc.len() == 7);
    assert("method"@.len() == 6);
    assert("id"@.len() == 2);
    assert(jsonrpc != "id"@);
    assert("method"@ != jsonrpc);
    assert("method"@ != "id"@);
    lemma_lookup(s, ms, "id"@, 1);
    lemma_lookup(s, ms, jsonrpc, 0);
    lemma_lookup_absent(s, ms, "method"@);
    lemma_id_text(s, k3 + 5, id);
    lemma_string_text(s, 11, version);
    assert(field(s, ms, "id"@) == Some(t));
    assert(field(s, ms, jsonrpc) == Some(version));
}

} // verus!
