//! The questions of quick mode: what is asked for the values that are still missing, and what
//! each answer leads to.

use vstd::prelude::*;
use vstd::string::*;

use crate::endpoint::EndpointId;
use crate::secret::hex_bytes;
use crate::text::{opt_string, parse_u16, trim, trimmed, u16_of_text};

verus! {

/// What a client is started with.
#[derive(Debug, PartialEq, Eq)]
pub struct ClientConfig {
    /// The endpoint id of the server.
    pub server_node_id: Option<String>,
    /// The local SOCKS5 port; `None` leaves that proxy off.
    pub socks_port: Option<u16>,
    /// The local HTTP port; `None` leaves that proxy off.
    pub http_port: Option<u16>,
}

/// What a [`ClientConfig`] holds.
#[verifier::ext_equal]
pub struct ClientConfigView {
    pub server_node_id: Option<Seq<char>>,
    pub socks_port: Option<u16>,
    pub http_port: Option<u16>,
}

impl View for ClientConfig {
    type V = ClientConfigView;

    open spec fn view(&self) -> ClientConfigView {
        ClientConfigView {
            server_node_id: opt_string(self.server_node_id),
            socks_port: self.socks_port,
            http_port: self.http_port,
        }
    }
}

/// What a text is as an endpoint id: the id's bytes, or the reason why it is none.
pub uninterp spec fn parsed_endpoint_id(text: Seq<char>) -> Result<Seq<u8>, Seq<char>>;

/// The view of an endpoint id that was read.
pub open spec fn read_id(r: Result<EndpointId, String>) -> Result<Seq<u8>, Seq<char>> {
    match r {
        Ok(id) => Ok(id@),
        Err(e) => Err(e@),
    }
}

/// `EndpointId::from_str` of iroh reads a text as an endpoint id, by the text alone. The id that
/// it gives, written in hexadecimal, is read as the same id again.
#[verifier::external_body]
fn parse_endpoint_id(text: &str) -> (r: Result<EndpointId, String>)
    ensures
        read_id(r) == parsed_endpoint_id(text@),
        r is Ok ==> parsed_endpoint_id(hex_bytes(r->Ok_0@)) == read_id(r),
{
    match text.parse::<iroh::EndpointId>() {
        Ok(id) => Ok(EndpointId { bytes: *id.as_bytes() }),
        Err(e) => Err(e.to_string()),
    }
}

/// What a trimmed answer gives as an endpoint id, given how it reads: the id, or what to say
/// before asking again.
pub open spec fn id_answer(value: Seq<char>, parsed: Result<Seq<u8>, Seq<char>>) -> Result<
    Seq<u8>,
    Seq<char>,
> {
    if value.len() == 0 {
        Err("A value is required."@)
    } else {
        match parsed {
            Ok(id) => Ok(id),
            Err(e) => Err("Invalid EndpointId: "@ + e),
        }
    }
}

/// Takes a trimmed answer as an endpoint id, given how it reads.
pub fn endpoint_id_answer(value: &str, parsed: Result<EndpointId, String>) -> (r: Result<
    EndpointId,
    String,
>)
    ensures
        read_id(r) == id_answer(value@, read_id(parsed)),
{
    if value.is_empty() {
        return Err(String::from_str("A value is required."));
    }
    match parsed {
        Ok(id) => Ok(id),
        Err(e) => {
            let mut message = String::from_str("Invalid EndpointId: ");
            message.append(e.as_str());
            Err(message)
        },
    }
}

/// Takes the line that was entered as an endpoint id, or says what to say before asking again.
pub fn prompt_endpoint_id(line: &str) -> (r: Result<EndpointId, String>)
    ensures
        read_id(r) == id_answer(trimmed(line@), parsed_endpoint_id(trimmed(line@))),
        r matches Ok(id) ==> parsed_endpoint_id(hex_bytes(id@)) == Ok::<Seq<u8>, Seq<char>>(id@),
{
    let value = trim(line);
    let parsed = parse_endpoint_id(value.as_str());
    endpoint_id_answer(value.as_str(), parsed)
}

/// What the line that was entered gives as an optional port: none for a blank line, a port, or
/// what to say before asking again.
pub open spec fn port_answer(line: Seq<char>) -> Result<Option<u16>, Seq<char>> {
    if trimmed(line).len() == 0 {
        Ok(None)
    } else {
        match u16_of_text(trimmed(line)) {
            Some(port) => Ok(Some(port)),
            None => Err("Enter a port number (1-65535) or leave blank."@),
        }
    }
}

/// Takes the line that was entered as an optional port.
pub fn prompt_optional_port(line: &str) -> (r: Result<Option<u16>, String>)
    ensures
        match r {
            Ok(port) => Ok(port),
            Err(e) => Err(e@),
        } == port_answer(line@),
{
    let value = trim(line);
    if value.as_str().is_empty() {
        return Ok(None);
    }
    match parse_u16(value.as_str()) {
        Some(port) => Ok(Some(port)),
        None => Err(String::from_str("Enter a port number (1-65535) or leave blank.")),
    }
}

/// A question of quick mode.
#[derive(Debug, Clone, Copy, PartialEq, Eq, Structural)]
pub enum Question {
    ServerId,
    SocksPort,
    HttpPort,
}

/// The text of a question.
pub open spec fn question_text(q: Question) -> Seq<char> {
    match q {
        Question::ServerId => "Server EndpointId (shown by `flextunnel server start --quick`)"@,
        Question::SocksPort => "SOCKS5 port (blank = disabled)"@,
        Question::HttpPort => "HTTP proxy port (blank = disabled)"@,
    }
}

impl Question {
    /// The text of the question.
    pub fn text(self) -> (r: &'static str)
        ensures
            r@ == question_text(self),
    {
        match self {
            Question::ServerId => "Server EndpointId (shown by `flextunnel server start --quick`)",
            Question::SocksPort => "SOCKS5 port (blank = disabled)",
            Question::HttpPort => "HTTP proxy port (blank = disabled)",
        }
    }
}

/// Whether the value that a question is for is missing.
pub open spec fn is_missing(cli: ClientConfigView, q: Question) -> bool {
    match q {
        Question::ServerId => cli.server_node_id is None,
        Question::SocksPort => cli.socks_port is None,
        Question::HttpPort => cli.http_port is None,
    }
}

/// The first question from `q` on whose value is missing.
pub open spec fn question_from(cli: ClientConfigView, q: Question) -> Option<Question>
    decreases
            (match q {
                Question::ServerId => 2int,
                Question::SocksPort => 1,
                Question::HttpPort => 0,
            }),
{
    if is_missing(cli, q) {
        Some(q)
    } else {
        match q {
            Question::ServerId => question_from(cli, Question::SocksPort),
            Question::SocksPort => question_from(cli, Question::HttpPort),
            Question::HttpPort => None,
        }
    }
}

/// The question after `q`: each is answered once, so a port that was left blank is not asked for
/// again.
pub open spec fn question_after(cli: ClientConfigView, q: Question) -> Option<Question> {
    match q {
        Question::ServerId => question_from(cli, Question::SocksPort),
        Question::SocksPort => question_from(cli, Question::HttpPort),
        Question::HttpPort => None,
    }
}

fn ask_from(cli: &ClientConfig, q: Question) -> (r: Option<Question>)
    ensures
        r == question_from(cli@, q),
{
    proof {
        reveal_with_fuel(question_from, 4);
    }
    if q == Question::ServerId && cli.server_node_id.is_none() {
        Some(Question::ServerId)
    } else if q != Question::HttpPort && cli.socks_port.is_none() {
        Some(Question::SocksPort)
    } else if cli.http_port.is_none() {
        Some(Question::HttpPort)
    } else {
        None
    }
}

/// The first question to ask, if any value is missing.
pub fn first_question(cli: &ClientConfig) -> (r: Option<Question>)
    ensures
        r == question_from(cli@, Question::ServerId),
{
    ask_from(cli, Question::ServerId)
}

/// What to do after an answer.
#[derive(Debug, PartialEq, Eq)]
pub enum FillStep {
    /// Ask this question next.
    Ask(Question),
    /// Say this, and ask the same question again.
    Again(String),
    /// Nothing is left to ask.
    Done,
}

/// What a [`FillStep`] holds.
#[verifier::ext_equal]
pub enum FillStepView {
    Ask(Question),
    Again(Seq<char>),
    Done,
}

impl View for FillStep {
    type V = FillStepView;

    open spec fn view(&self) -> FillStepView {
        match *self {
            FillStep::Ask(q) => FillStepView::Ask(q),
            FillStep::Again(e) => FillStepView::Again(e@),
            FillStep::Done => FillStepView::Done,
        }
    }
}

/// What to do once `q` has been answered.
pub open spec fn step_after(cli: ClientConfigView, q: Question) -> FillStepView {
    match question_after(cli, q) {
        Some(next) => FillStepView::Ask(next),
        None => FillStepView::Done,
    }
}

/// The configuration and what to do after the line entered for `q`, given how the line reads as
/// an endpoint id.
pub open spec fn answered(
    cli: ClientConfigView,
    q: Question,
    line: Seq<char>,
    id: Result<Seq<u8>, Seq<char>>,
) -> (ClientConfigView, FillStepView) {
    match q {
        Question::ServerId => match id_answer(trimmed(line), id) {
            Ok(id) => (
                ClientConfigView { server_node_id: Some(hex_bytes(id)), ..cli },
                step_after(cli, q),
            ),
            Err(e) => (cli, FillStepView::Again(e)),
        },
        Question::SocksPort => match port_answer(line) {
            Ok(port) => (ClientConfigView { socks_port: port, ..cli }, step_after(cli, q)),
            Err(e) => (cli, FillStepView::Again(e)),
        },
        Question::HttpPort => match port_answer(line) {
            Ok(port) => (ClientConfigView { http_port: port, ..cli }, step_after(cli, q)),
            Err(e) => (cli, FillStepView::Again(e)),
        },
    }
}

fn after_answer(cli: &ClientConfig, q: Question) -> (r: FillStep)
    ensures
        r@ == step_after(cli@, q),
{
    let next = match q {
        Question::ServerId => ask_from(cli, Question::SocksPort),
        Question::SocksPort => ask_from(cli, Question::HttpPort),
        Question::HttpPort => None,
    };
    match next {
        Some(next) => FillStep::Ask(next),
        None => FillStep::Done,
    }
}

/// Takes the line entered for `q` into the configuration, given how the line reads as an endpoint
/// id, and says what to do next.
pub fn fill_answer(
    cli: &mut ClientConfig,
    q: Question,
    line: &str,
    id: Result<EndpointId, String>,
) -> (r: FillStep)
    ensures
        (final(cli)@, r@) == answered(old(cli)@, q, line@, read_id(id)),
{
    let next = after_answer(cli, q);
    match q {
        Question::ServerId => match endpoint_id_answer(trim(line).as_str(), id) {
            Ok(id) => {
                cli.server_node_id = Some(id.to_text());
            },
            Err(e) => {
                return FillStep::Again(e);
            },
        },
        Question::SocksPort => match prompt_optional_port(line) {
            Ok(port) => {
                cli.socks_port = port;
            },
            Err(e) => {
                return FillStep::Again(e);
            },
        },
        Question::HttpPort => match prompt_optional_port(line) {
            Ok(port) => {
                cli.http_port = port;
            },
            Err(e) => {
                return FillStep::Again(e);
            },
        },
    }
    next
}

/// Takes the line entered for `q` into the configuration and says what to do next.
pub fn fill_client_config(cli: &mut ClientConfig, q: Question, line: &str) -> (r: FillStep)
    ensures
        (final(cli)@, r@) == answered(old(cli)@, q, line@, parsed_endpoint_id(trimmed(line@))),
{
    let id = parse_endpoint_id(trim(line).as_str());
    fill_answer(cli, q, line, id)
}

/// No value that was supplied is ever asked for, at the start or after an answer, and an answer
/// changes no value but the one that it was asked for.
pub proof fn law_supplied_values_stay(
    cli: ClientConfigView,
    q: Question,
    line: Seq<char>,
    id: Result<Seq<u8>, Seq<char>>,
)
    ensures
        question_from(cli, Question::ServerId) matches Some(first) ==> is_missing(cli, first),
        answered(cli, q, line, id).1 matches FillStepView::Ask(next) ==> is_missing(cli, next)
            && is_missing(answered(cli, q, line, id).0, next) && next != q,
        q != Question::ServerId ==> answered(cli, q, line, id).0.server_node_id
            == cli.server_node_id,
        q != Question::SocksPort ==> answered(cli, q, line, id).0.socks_port == cli.socks_port,
        q != Question::HttpPort ==> answered(cli, q, line, id).0.http_port == cli.http_port,
{
    reveal_with_fuel(question_from, 4);
}

/// Once nothing is left to ask, the server's id is there.
pub proof fn law_done_means_a_server(
    cli: ClientConfigView,
    q: Question,
    line: Seq<char>,
    id: Result<Seq<u8>, Seq<char>>,
)
    requires
        cli.server_node_id is Some || q == Question::ServerId,
    ensures
        answered(cli, q, line, id).1 !is Again ==> answered(cli, q, line, id).0.server_node_id
            is Some,
        question_from(cli, Question::ServerId) is None ==> cli.server_node_id is Some,
{
    reveal_with_fuel(question_from, 4);
}

} // verus!
