//! The local control endpoint. A program on the same machine sends one request per line and
//! gets one response per line. What costs or reveals something needs the token, which is in a
//! file that only the owner can read.

use crate::error::CoreError;
use crate::json::{
    field_texts, hex_digit, json_object, json_string, law_plain_text_is_not_escaped, write_object, Json,
};
use crate::name::{parsed_name, Name, NameModel};
use crate::order::comes_before;
use crate::text::{decimal, decimal_of, law_joining_appends, same_text, trim, trimmed};
use vstd::hash_map::StringHashMap;
use vstd::prelude::*;
use vstd::string::*;
use vstd::utf8::encode_utf8_decode_utf8;

verus! {

/// Most bytes that are read from one connection.
pub const MAX_CONN_BYTES: u64 = 64 * 1024;

/// Name of the file in which the port and the token are left.
pub const CONTROL_FILE: &'static str = "control.json";

// ---------------------------------------------------------------------------
// Token
// ---------------------------------------------------------------------------

/// Bytes in hexadecimal.
pub open spec fn hex(bytes: Seq<u8>) -> Seq<char>
    decreases bytes.len(),
{
    if bytes.len() == 0 {
        Seq::empty()
    } else {
        hex(bytes.drop_last()).push(hex_digit(bytes.last() as nat / 16)).push(
            hex_digit(bytes.last() as nat % 16),
        )
    }
}

/// `getrandom::getrandom` for 16 bytes. Nothing is known of the bytes.
#[verifier::external_body]
fn random_bytes() -> (r: Result<[u8; 16], String>) {
    let mut bytes = [0u8; 16];
    match getrandom::getrandom(&mut bytes) {
        Ok(()) => Ok(bytes),
        Err(e) => Err(e.to_string()),
    }
}

/// A hexadecimal digit.
fn hex_digit_of(n: u8) -> (c: char)
    requires
        n < 16,
    ensures
        c == hex_digit(n as nat),
{
    if n < 10 {
        (48 + n) as char
    } else {
        (87 + n) as char
    }
}

/// Bytes in hexadecimal.
pub fn hex_text(bytes: &[u8]) -> (text: String)
    ensures
        text@ == hex(bytes@),
        text@.len() == 2 * bytes@.len(),
{
    let mut text = String::new();
    let mut i: usize = 0;
    assert(bytes@.take(0) =~= Seq::empty());
    while i < bytes.len()
        invariant
            i <= bytes@.len(),
            text@ == hex(bytes@.take(i as int)),
            text@.len() == 2 * i,
        decreases bytes@.len() - i,
    {
        assert(bytes@.take(i + 1).drop_last() =~= bytes@.take(i as int));
        assert(bytes@.take(i + 1).last() == bytes@[i as int]);
        text.push(hex_digit_of(bytes[i] / 16));
        text.push(hex_digit_of(bytes[i] % 16));
        i += 1;
    }
    assert(bytes@.take(bytes@.len() as int) =~= bytes@);
    text
}

/// A token of 128 random bits, in hexadecimal.
pub fn random_token() -> (r: Result<String, String>)
    ensures
        match r {
            Ok(token) => token@.len() == 32 && exists|bytes: Seq<u8>|
                bytes.len() == 16 && token@ == #[trigger] hex(bytes),
            Err(why) => "getrandom failed: "@.is_prefix_of(why@),
        },
{
    match random_bytes() {
        Ok(bytes) => {
            let token = hex_text(bytes.as_slice());
            assert(token@ == hex(bytes@));
            Ok(token)
        },
        Err(why) => {
            let text = "getrandom failed: ".to_string().concat(why.as_str());
            assert("getrandom failed: "@ =~= text@.take("getrandom failed: "@.len() as int));
            Err(text)
        },
    }
}

/// Checks a token. All of it is compared, so that the time tells nothing of where it differs.
pub fn token_ok(expected: &str, given: &str) -> (ok: bool)
    ensures
        ok == (expected@ == given@),
{
    let a = expected.as_bytes_vec();
    let b = given.as_bytes_vec();
    proof {
        encode_utf8_decode_utf8(expected@);
        encode_utf8_decode_utf8(given@);
    }
    if a.len() != b.len() {
        return false;
    }
    let mut acc: u8 = 0;
    let mut i: usize = 0;
    while i < a.len()
        invariant
            i <= a@.len(),
            a@.len() == b@.len(),
            acc == 0 <==> (forall|k: int| 0 <= k < i ==> a@[k] == b@[k]),
        decreases a@.len() - i,
    {
        let x = a[i];
        let y = b[i];
        let ghost before = acc;
        acc = acc | (x ^ y);
        assert((before | (x ^ y)) == 0 <==> (before == 0 && x == y)) by (bit_vector);
        i += 1;
    }
    if acc == 0 {
        assert(a@ =~= b@);
    }
    acc == 0
}

// ---------------------------------------------------------------------------
// Requests and responses
// ---------------------------------------------------------------------------

/// A request. Fields that are missing are empty.
pub struct Request {
    pub op: String,
    pub name: String,
    pub token: String,
}

/// A response.
#[derive(Debug, Clone, PartialEq, Eq)]
pub enum Response {
    /// The agent is there.
    Pong,
    /// The name can be reached at a port of this machine.
    Listening { name: String, port: u16 },
    /// The round trip time to the publisher in milliseconds, if it is known.
    Rtt(Option<u64>),
    /// The request failed.
    Failed(String),
}

/// The address of a port of this machine.
pub open spec fn local_addr(port: u16) -> Seq<char> {
    "127.0.0.1:"@ + decimal(port as nat)
}

/// The names and values in a response.
pub open spec fn response_fields(response: Response) -> Seq<(Seq<char>, Seq<char>)> {
    match response {
        Response::Pong => seq![("ok"@, "true"@)],
        Response::Listening { name, port } => seq![
            ("listen"@, json_string(local_addr(port))),
            ("name"@, json_string(name@)),
            ("ok"@, "true"@),
        ],
        Response::Rtt(ms) => seq![
            ("ok"@, "true"@),
            (
                "rtt_ms"@,
                match ms {
                    Some(n) => decimal(n as nat),
                    None => seq!['-'] + decimal(1),
                },
            ),
        ],
        Response::Failed(why) => seq![("error"@, json_string(why@)), ("ok"@, "false"@)],
    }
}

/// A name that begins with an earlier character comes first.
proof fn lemma_first_char_decides(a: Seq<char>, b: Seq<char>)
    requires
        a.len() > 0,
        b.len() > 0,
        a[0] < b[0],
    ensures
        comes_before(a, b),
{
}

impl Response {
    /// The response as a line of JSON.
    pub fn line(&self) -> (line: String)
        ensures
            line@ == json_object(response_fields(*self)).push('\n'),
    {
        let mut fields: Vec<(String, Json)> = Vec::new();
        match self {
            Response::Pong => {
                fields.push(("ok".to_string(), Json::Bool(true)));
            },
            Response::Listening { name, port } => {
                let addr = "127.0.0.1:".to_string().concat(decimal_of(*port as u64).as_str());
                fields.push(("listen".to_string(), Json::Text(addr)));
                fields.push(("name".to_string(), Json::Text(name.as_str().to_string())));
                fields.push(("ok".to_string(), Json::Bool(true)));
            },
            Response::Rtt(ms) => {
                fields.push(("ok".to_string(), Json::Bool(true)));
                let value = match ms {
                    Some(n) => Json::Uint(*n),
                    None => Json::Int(-1),
                };
                fields.push(("rtt_ms".to_string(), value));
            },
            Response::Failed(why) => {
                fields.push(("error".to_string(), Json::Text(why.as_str().to_string())));
                fields.push(("ok".to_string(), Json::Bool(false)));
            },
        }
        proof {
            reveal_strlit("ok");
            reveal_strlit("listen");
            reveal_strlit("name");
            reveal_strlit("rtt_ms");
            reveal_strlit("error");
            lemma_first_char_decides("listen"@, "name"@);
            lemma_first_char_decides("listen"@, "ok"@);
            lemma_first_char_decides("name"@, "ok"@);
            lemma_first_char_decides("ok"@, "rtt_ms"@);
            lemma_first_char_decides("error"@, "ok"@);
        }
        assert(field_texts(fields@) =~= response_fields(*self));
        let mut line = write_object(fields);
        line.push('\n');
        line
    }
}

/// The fields of the control file.
pub open spec fn control_fields(port: u16, token: Seq<char>) -> Seq<(Seq<char>, Seq<char>)> {
    seq![("port"@, decimal(port as nat)), ("token"@, json_string(token))]
}

/// What is left in the control file.
pub fn control_text(port: u16, token: &str) -> (text: String)
    ensures
        text@ == json_object(control_fields(port, token@)),
{
    let mut fields: Vec<(String, Json)> = Vec::new();
    fields.push(("port".to_string(), Json::Uint(port as u64)));
    fields.push(("token".to_string(), Json::Text(token.to_string())));
    proof {
        reveal_strlit("port");
        reveal_strlit("token");
        lemma_first_char_decides("port"@, "token"@);
    }
    assert(field_texts(fields@) =~= control_fields(port, token@));
    write_object(fields)
}

// ---------------------------------------------------------------------------
// The agent
// ---------------------------------------------------------------------------

/// What an agent remembers: its token, and for each name that has a tunnel the local port and
/// the publisher.
pub struct AgentModel {
    pub token: Seq<char>,
    pub tunnels: Map<Seq<char>, (u16, Seq<char>)>,
}

/// An agent.
pub struct Agent {
    token: String,
    tunnels: StringHashMap<(u16, String)>,
}

impl View for Agent {
    type V = AgentModel;

    closed spec fn view(&self) -> AgentModel {
        AgentModel {
            token: self.token@,
            tunnels: self.tunnels@.map_values(|t: (u16, String)| (t.0, t.1@)),
        }
    }
}

/// What a request asks for.
pub enum AgentStep {
    /// Answer at once.
    Reply(Response),
    /// Resolve the name and open a tunnel first.
    Establish(Name),
    /// Ask for the round trip time to this peer first.
    AskRtt(String),
}

/// What a request asks for, in mathematical values.
pub enum StepModel {
    Reply(Response),
    Fail(Seq<char>),
    Listening(Seq<char>, u16),
    Establish(NameModel),
    AskRtt(Seq<char>),
}

impl View for AgentStep {
    type V = StepModel;

    open spec fn view(&self) -> StepModel {
        match self {
            AgentStep::Reply(Response::Failed(why)) => StepModel::Fail(why@),
            AgentStep::Reply(Response::Listening { name, port }) => StepModel::Listening(
                name@,
                *port,
            ),
            AgentStep::Reply(r) => StepModel::Reply(*r),
            AgentStep::Establish(name) => StepModel::Establish(name@),
            AgentStep::AskRtt(peer) => StepModel::AskRtt(peer@),
        }
    }
}

/// What a request to resolve a name asks for.
pub open spec fn resolve_request(agent: AgentModel, name: Seq<char>, token: Seq<char>) -> StepModel {
    if token != agent.token {
        StepModel::Fail("unauthorized (bad or missing token)"@)
    } else {
        match parsed_name(name) {
            Err(_) => StepModel::Fail("invalid address"@),
            Ok(n) => if agent.tunnels.contains_key(n.text()) {
                StepModel::Listening(name, agent.tunnels[n.text()].0)
            } else {
                StepModel::Establish(n)
            },
        }
    }
}

/// What a request for a round trip time asks for.
pub open spec fn rtt_request(agent: AgentModel, name: Seq<char>, token: Seq<char>) -> StepModel {
    if token != agent.token {
        StepModel::Fail("unauthorized"@)
    } else {
        match parsed_name(name) {
            Err(_) => StepModel::Reply(Response::Rtt(None)),
            Ok(n) => if agent.tunnels.contains_key(n.text()) {
                StepModel::AskRtt(agent.tunnels[n.text()].1)
            } else {
                StepModel::Reply(Response::Rtt(None))
            },
        }
    }
}

/// What a request asks for. Only `ping` is answered without the token.
pub open spec fn request_step(
    agent: AgentModel,
    op: Seq<char>,
    name: Seq<char>,
    token: Seq<char>,
) -> StepModel {
    if op == "ping"@ {
        StepModel::Reply(Response::Pong)
    } else if op == "resolve"@ {
        resolve_request(agent, name, token)
    } else if op == "rtt"@ {
        rtt_request(agent, name, token)
    } else {
        StepModel::Fail("unknown op: "@ + op)
    }
}

/// The request in a line of input, if the line is not blank.
pub fn request_text(line: &str) -> (text: Option<String>)
    ensures
        match text {
            Some(t) => t@ == trimmed(line@) && t@.len() > 0,
            None => trimmed(line@).len() == 0,
        },
{
    let text = trim(line);
    if text.as_str().is_empty() {
        None
    } else {
        Some(text)
    }
}

/// The response to a line that is no request.
pub fn bad_request(why: &str) -> (response: Response)
    ensures
        response matches Response::Failed(text) && text@ == "bad request: "@ + why@,
{
    Response::Failed("bad request: ".to_string().concat(why))
}

/// A failure with the given words.
fn failed(why: &str) -> (step: AgentStep)
    ensures
        step@ == StepModel::Fail(why@),
{
    AgentStep::Reply(Response::Failed(why.to_string()))
}

impl Agent {
    /// An agent with no tunnels.
    pub fn new(token: String) -> (agent: Self)
        ensures
            agent@ == (AgentModel { token: token@, tunnels: Map::empty() }),
    {
        let agent = Agent { token, tunnels: StringHashMap::new() };
        assert(agent@.tunnels =~= Map::empty());
        agent
    }

    /// Takes a request.
    pub fn handle_request(&self, req: &Request) -> (step: AgentStep)
        ensures
            step@ == request_step(self@, req.op@, req.name@, req.token@),
    {
        if same_text(req.op.as_str(), "ping") {
            AgentStep::Reply(Response::Pong)
        } else if same_text(req.op.as_str(), "resolve") {
            self.resolve(req)
        } else if same_text(req.op.as_str(), "rtt") {
            self.rtt(req)
        } else {
            failed("unknown op: ".to_string().concat(req.op.as_str()).as_str())
        }
    }

    /// Takes a request to resolve a name.
    fn resolve(&self, req: &Request) -> (step: AgentStep)
        ensures
            step@ == resolve_request(self@, req.name@, req.token@),
    {
        if !token_ok(self.token.as_str(), req.token.as_str()) {
            return failed("unauthorized (bad or missing token)");
        }
        match Name::parse(req.name.as_str()) {
            Err(_) => failed("invalid address"),
            Ok(name) => match self.tunnels.get(name.to_string().as_str()) {
                Some(tunnel) => AgentStep::Reply(
                    Response::Listening { name: req.name.as_str().to_string(), port: tunnel.0 },
                ),
                None => AgentStep::Establish(name),
            },
        }
    }

    /// Takes a request for a round trip time.
    fn rtt(&self, req: &Request) -> (step: AgentStep)
        ensures
            step@ == rtt_request(self@, req.name@, req.token@),
    {
        if !token_ok(self.token.as_str(), req.token.as_str()) {
            return failed("unauthorized");
        }
        match Name::parse(req.name.as_str()) {
            Err(_) => AgentStep::Reply(Response::Rtt(None)),
            Ok(name) => match self.tunnels.get(name.to_string().as_str()) {
                Some(tunnel) => AgentStep::AskRtt(tunnel.1.as_str().to_string()),
                None => AgentStep::Reply(Response::Rtt(None)),
            },
        }
    }

    /// Remembers a tunnel that was opened for a request, and answers the request. `asked` is the
    /// name as it stood there.
    pub fn established(&mut self, asked: &str, name: &Name, port: u16, peer: String) -> (response:
        Response)
        ensures
            final(self)@ == (AgentModel {
                tunnels: old(self)@.tunnels.insert(name@.text(), (port, peer@)),
                ..old(self)@
            }),
            response matches Response::Listening { name: n, port: p } && n@ == asked@ && p == port,
    {
        let ghost tunnel = (port, peer@);
        self.tunnels.insert(name.to_string(), (port, peer));
        assert(self@.tunnels =~= old(self)@.tunnels.insert(name@.text(), tunnel));
        Response::Listening { name: asked.to_string(), port }
    }
}

// ---------------------------------------------------------------------------
// Laws
// ---------------------------------------------------------------------------

/// Without the token nothing is opened and nothing is told: the answer to a request does not
/// depend on which tunnels there are, nor on the name.
pub proof fn law_wrong_token_tells_nothing(
    agent: AgentModel,
    other: AgentModel,
    op: Seq<char>,
    name: Seq<char>,
    other_name: Seq<char>,
    token: Seq<char>,
)
    requires
        token != agent.token,
        token != other.token,
    ensures
        request_step(agent, op, name, token) == request_step(other, op, other_name, token),
        !(request_step(agent, op, name, token) is Establish),
        !(request_step(agent, op, name, token) is AskRtt),
        !(request_step(agent, op, name, token) is Listening),
{
}

/// A name that has a tunnel is not resolved again: the tunnel is reported, however the name is
/// written, and its publisher is the one asked for the round trip time.
pub proof fn law_tunnel_is_reused(
    agent: AgentModel,
    name: NameModel,
    port: u16,
    peer: Seq<char>,
    written: Seq<char>,
)
    requires
        parsed_name(written) == Ok::<NameModel, CoreError>(name),
    ensures
        ({
            let after = AgentModel {
                tunnels: agent.tunnels.insert(name.text(), (port, peer)),
                ..agent
            };
            &&& request_step(after, "resolve"@, written, agent.token) == StepModel::Listening(
                written,
                port,
            )
            &&& request_step(after, "rtt"@, written, agent.token) == StepModel::AskRtt(peer)
        }),
{
    reveal_strlit("ping");
    reveal_strlit("resolve");
    reveal_strlit("rtt");
    assert("ping"@.len() == 4 && "resolve"@.len() == 7 && "rtt"@.len() == 3);
}

/// A new tunnel changes nothing for requests about other names.
pub proof fn law_other_tunnels_stay(
    agent: AgentModel,
    name: NameModel,
    port: u16,
    peer: Seq<char>,
    op: Seq<char>,
    written: Seq<char>,
    token: Seq<char>,
)
    requires
        parsed_name(written) matches Ok(other) ==> other.text() != name.text(),
    ensures
        ({
            let after = AgentModel {
                tunnels: agent.tunnels.insert(name.text(), (port, peer)),
                ..agent
            };
            request_step(after, op, written, token) == request_step(agent, op, written, token)
        }),
{
}

/// A step is seen as what it says.
pub proof fn law_steps_are_seen_as_they_are(step: AgentStep)
    ensures
        step matches AgentStep::Establish(name) ==> (step@ matches StepModel::Establish(n)
            && n.vanity == name.vanity@ && n.keyid == name.keyid@),
        step matches AgentStep::AskRtt(peer) ==> step@ == StepModel::AskRtt(peer@),
        step matches AgentStep::Reply(Response::Failed(why)) ==> step@ == StepModel::Fail(why@),
        step matches AgentStep::Reply(Response::Listening { name, port }) ==> step@
            == StepModel::Listening(name@, port),
        step matches AgentStep::Reply(Response::Pong) ==> step@ == StepModel::Reply(Response::Pong),
        step matches AgentStep::Reply(Response::Rtt(ms)) ==> step@ == StepModel::Reply(
            Response::Rtt(ms),
        ),
{
}

/// A ping is answered without the token, and what is unknown is refused by its name.
pub proof fn law_ping_needs_no_token(
    agent: AgentModel,
    op: Seq<char>,
    name: Seq<char>,
    token: Seq<char>,
)
    ensures
        request_step(agent, "ping"@, name, token) == StepModel::Reply(Response::Pong),
        op != "ping"@ && op != "resolve"@ && op != "rtt"@ ==> request_step(agent, op, name, token)
            == StepModel::Fail("unknown op: "@ + op),
{
}

proof fn lemma_ops_differ()
    ensures
        "ping"@ != "resolve"@,
        "ping"@ != "rtt"@,
        "resolve"@ != "rtt"@,
{
    reveal_strlit("ping");
    reveal_strlit("resolve");
    reveal_strlit("rtt");
    assert("ping"@.len() == 4 && "resolve"@.len() == 7 && "rtt"@.len() == 3);
}

/// With the token a name is resolved and a tunnel opened if there is none for it, and the port
/// of its tunnel is told if there is one; a text that is no name is refused, and without the
/// token everything is.
pub proof fn law_resolving(agent: AgentModel, name: Seq<char>, token: Seq<char>)
    ensures
        ({
            let step = request_step(agent, "resolve"@, name, token);
            &&& token != agent.token ==> step == StepModel::Fail(
                "unauthorized (bad or missing token)"@,
            )
            &&& token == agent.token && parsed_name(name) is Err ==> step == StepModel::Fail(
                "invalid address"@,
            )
            &&& token == agent.token ==> (parsed_name(name) matches Ok(n) ==> {
                &&& !agent.tunnels.contains_key(n.text()) ==> step == StepModel::Establish(n)
                &&& agent.tunnels.contains_key(n.text()) ==> step == StepModel::Listening(
                    name,
                    agent.tunnels[n.text()].0,
                )
            })
        }),
{
    lemma_ops_differ();
}

/// With the token the publisher behind a tunnel is asked for the round trip time; without a
/// tunnel for the name it is unknown, and without the token nothing is told.
pub proof fn law_round_trip_times(agent: AgentModel, name: Seq<char>, token: Seq<char>)
    ensures
        ({
            let step = request_step(agent, "rtt"@, name, token);
            &&& token != agent.token ==> step == StepModel::Fail("unauthorized"@)
            &&& token == agent.token && parsed_name(name) is Err ==> step == StepModel::Reply(
                Response::Rtt(None),
            )
            &&& token == agent.token ==> (parsed_name(name) matches Ok(n) ==> {
                &&& !agent.tunnels.contains_key(n.text()) ==> step == StepModel::Reply(
                    Response::Rtt(None),
                )
                &&& agent.tunnels.contains_key(n.text()) ==> step == StepModel::AskRtt(
                    agent.tunnels[n.text()].1,
                )
            })
        }),
{
    lemma_ops_differ();
}

/// Each byte is written as two digits, the higher one first. So different bytes are written
/// differently.
pub proof fn law_hex_digits(bytes: Seq<u8>)
    ensures
        hex(bytes).len() == 2 * bytes.len(),
        forall|i: int|
            #![trigger bytes[i]]
            0 <= i < bytes.len() ==> hex(bytes)[2 * i] == "0123456789abcdef"@[bytes[i] as int / 16]
                && hex(bytes)[2 * i + 1] == "0123456789abcdef"@[bytes[i] as int % 16],
    decreases bytes.len(),
{
    reveal_strlit("0123456789abcdef");
    if bytes.len() > 0 {
        let rest = bytes.drop_last();
        law_hex_digits(rest);
        assert forall|i: int|
            #![trigger bytes[i]]
            0 <= i < bytes.len() implies hex(bytes)[2 * i] == "0123456789abcdef"@[bytes[i] as int
            / 16] && hex(bytes)[2 * i + 1] == "0123456789abcdef"@[bytes[i] as int % 16] by {
            if i < rest.len() {
                assert(rest[i] == bytes[i]);
                assert(hex(bytes)[2 * i] == hex(rest)[2 * i]);
                assert(hex(bytes)[2 * i + 1] == hex(rest)[2 * i + 1]);
            } else {
                let n = bytes.last() as nat;
                assert(hex_digit(n / 16) == "0123456789abcdef"@[n as int / 16]);
                assert(hex_digit(n % 16) == "0123456789abcdef"@[n as int % 16]);
            }
        }
    }
}

proof fn lemma_plain_name(name: Seq<char>)
    requires
        forall|i: int| 0 <= i < name.len() ==> 'a' <= #[trigger] name[i] <= 'z' || name[i] == '_',
    ensures
        json_string(name) == seq!['"'] + name + seq!['"'],
{
    law_plain_text_is_not_escaped(name);
}

proof fn lemma_one_field(name: Seq<char>, value: Seq<char>)
    requires
        forall|i: int| 0 <= i < name.len() ==> 'a' <= #[trigger] name[i] <= 'z' || name[i] == '_',
    ensures
        json_object(seq![(name, value)]) == seq!['{', '"'] + name + seq!['"', ':'] + value + seq!['}'],
{
    lemma_plain_name(name);
    let parts = seq![(name, value)].map_values(
        |f: (Seq<char>, Seq<char>)| json_string(f.0) + seq![':'] + f.1,
    );
    assert(parts =~= seq![json_string(name) + seq![':'] + value]);
    law_joining_appends(Seq::empty(), json_string(name) + seq![':'] + value, seq![',']);
    assert(json_object(seq![(name, value)]) =~= seq!['{', '"'] + name + seq!['"', ':'] + value
        + seq!['}']);
}

proof fn lemma_two_fields(n1: Seq<char>, v1: Seq<char>, n2: Seq<char>, v2: Seq<char>)
    requires
        forall|i: int| 0 <= i < n1.len() ==> 'a' <= #[trigger] n1[i] <= 'z' || n1[i] == '_',
        forall|i: int| 0 <= i < n2.len() ==> 'a' <= #[trigger] n2[i] <= 'z' || n2[i] == '_',
    ensures
        json_object(seq![(n1, v1), (n2, v2)]) == seq!['{', '"'] + n1 + seq!['"', ':'] + v1 + seq![
            ',',
            '"',
        ] + n2 + seq!['"', ':'] + v2 + seq!['}'],
{
    lemma_plain_name(n1);
    lemma_plain_name(n2);
    let p1 = json_string(n1) + seq![':'] + v1;
    let p2 = json_string(n2) + seq![':'] + v2;
    let parts = seq![(n1, v1), (n2, v2)].map_values(
        |f: (Seq<char>, Seq<char>)| json_string(f.0) + seq![':'] + f.1,
    );
    assert(parts =~= seq![p1].push(p2));
    law_joining_appends(seq![p1], p2, seq![',']);
    law_joining_appends(Seq::empty(), p1, seq![',']);
    assert(json_object(seq![(n1, v1), (n2, v2)]) =~= seq!['{', '"'] + n1 + seq!['"', ':'] + v1
        + seq![',', '"'] + n2 + seq!['"', ':'] + v2 + seq!['}']);
}

/// A response says whether the request was done, and with it what was asked for: the round trip
/// time, which is minus one where it is unknown, or why the request failed.
pub proof fn law_responses_in_json(ms: u64, why: String)
    ensures
        json_object(response_fields(Response::Pong)) == "{\"ok\":true}"@,
        json_object(response_fields(Response::Rtt(Some(ms)))) == "{\"ok\":true,\"rtt_ms\":"@
            + decimal(ms as nat) + "}"@,
        json_object(response_fields(Response::Rtt(None))) == "{\"ok\":true,\"rtt_ms\":-1}"@,
        json_object(response_fields(Response::Failed(why))) == "{\"error\":"@ + json_string(why@)
            + ",\"ok\":false}"@,
{
    reveal_strlit("ok");
    reveal_strlit("true");
    reveal_strlit("false");
    reveal_strlit("rtt_ms");
    reveal_strlit("error");
    reveal_strlit("{\"ok\":true}");
    reveal_strlit("{\"ok\":true,\"rtt_ms\":");
    reveal_strlit("}");
    reveal_strlit("{\"ok\":true,\"rtt_ms\":-1}");
    reveal_strlit("{\"error\":");
    reveal_strlit(",\"ok\":false}");
    lemma_one_field("ok"@, "true"@);
    assert(json_object(response_fields(Response::Pong)) =~= "{\"ok\":true}"@);
    lemma_two_fields("ok"@, "true"@, "rtt_ms"@, decimal(ms as nat));
    assert(response_fields(Response::Rtt(Some(ms))) == seq![
        ("ok"@, "true"@),
        ("rtt_ms"@, decimal(ms as nat)),
    ]);
    assert(json_object(response_fields(Response::Rtt(Some(ms)))) =~= "{\"ok\":true,\"rtt_ms\":"@
        + decimal(ms as nat) + "}"@);
    let unknown = seq!['-'] + decimal(1);
    assert(unknown =~= seq!['-', '1']);
    lemma_two_fields("ok"@, "true"@, "rtt_ms"@, unknown);
    assert(response_fields(Response::Rtt(None)) == seq![("ok"@, "true"@), ("rtt_ms"@, unknown)]);
    assert(json_object(response_fields(Response::Rtt(None)))
        =~= "{\"ok\":true,\"rtt_ms\":-1}"@);
    lemma_two_fields("error"@, json_string(why@), "ok"@, "false"@);
    assert(json_object(response_fields(Response::Failed(why))) =~= "{\"error\":"@ + json_string(
        why@,
    ) + ",\"ok\":false}"@);
}

/// A tunnel is told by the address of its port on this machine, with the name as it was asked
/// for; the control file holds the port and the token.
pub proof fn law_fields_of_tunnel_and_control_file(name: String, port: u16, token: Seq<char>)
    ensures
        response_fields(Response::Listening { name, port }) == seq![
            ("listen"@, json_string("127.0.0.1:"@ + decimal(port as nat))),
            ("name"@, json_string(name@)),
            ("ok"@, "true"@),
        ],
        json_object(control_fields(port, token)) == "{\"port\":"@ + decimal(port as nat)
            + ",\"token\":"@ + json_string(token) + "}"@,
{
    reveal_strlit("port");
    reveal_strlit("token");
    reveal_strlit("{\"port\":");
    reveal_strlit(",\"token\":");
    reveal_strlit("}");
    lemma_two_fields("port"@, decimal(port as nat), "token"@, json_string(token));
    assert(json_object(control_fields(port, token)) =~= "{\"port\":"@ + decimal(port as nat)
        + ",\"token\":"@ + json_string(token) + "}"@);
}

} // verus!
