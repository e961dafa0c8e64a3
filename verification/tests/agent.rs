//! The control endpoint.

use mc_tunnel::agent::{
    bad_request, control_text, hex_text, random_token, request_text, token_ok, Agent, AgentStep,
    Request, Response,
};
use mc_tunnel::Name;

const NAME: &str = "abcdefghijklmnop.minecraft";

fn request(op: &str, name: &str, token: &str) -> Request {
    Request {
        op: op.to_string(),
        name: name.to_string(),
        token: token.to_string(),
    }
}

fn reply(step: AgentStep) -> String {
    match step {
        AgentStep::Reply(r) => r.line(),
        _ => panic!("no reply"),
    }
}

#[test]
fn tokens_are_compared_as_a_whole() {
    assert!(token_ok("", ""));
    assert!(token_ok("00ff", "00ff"));
    assert!(!token_ok("00ff", "00fe"));
    assert!(!token_ok("00ff", "00f"));
    assert!(!token_ok("00ff", ""));
    assert!(!token_ok("a\u{e9}", "a\u{ea}"));
}

#[test]
fn tokens_are_random_hexadecimal() {
    let a = random_token().unwrap();
    let b = random_token().unwrap();
    assert_eq!(a.len(), 32);
    assert!(a.chars().all(|c| matches!(c, '0'..='9' | 'a'..='f')));
    assert_ne!(a, b);
    assert_eq!(hex_text(&[0x00, 0x0f, 0xa5, 0xff]), "000fa5ff");
}

#[test]
fn ping_needs_no_token() {
    let agent = Agent::new("secret".to_string());
    assert_eq!(
        reply(agent.handle_request(&request("ping", "", ""))),
        "{\"ok\":true}\n"
    );
}

#[test]
fn nothing_else_works_without_the_token() {
    let agent = Agent::new("secret".to_string());
    for token in ["", "wrong", "secretx"] {
        assert_eq!(
            reply(agent.handle_request(&request("resolve", NAME, token))),
            "{\"error\":\"unauthorized (bad or missing token)\",\"ok\":false}\n"
        );
        assert_eq!(
            reply(agent.handle_request(&request("rtt", NAME, token))),
            "{\"error\":\"unauthorized\",\"ok\":false}\n"
        );
    }
}

#[test]
fn unknown_requests_are_refused() {
    let agent = Agent::new("secret".to_string());
    assert_eq!(
        reply(agent.handle_request(&request("frobnicate", "", "secret"))),
        "{\"error\":\"unknown op: frobnicate\",\"ok\":false}\n"
    );
    assert_eq!(
        reply(agent.handle_request(&request("resolve", "nonsense", "secret"))),
        "{\"error\":\"invalid address\",\"ok\":false}\n"
    );
    assert_eq!(
        bad_request("EOF").line(),
        "{\"error\":\"bad request: EOF\",\"ok\":false}\n"
    );
}

#[test]
fn a_tunnel_is_opened_once_and_then_reused() {
    let mut agent = Agent::new("secret".to_string());
    let name = match agent.handle_request(&request("resolve", NAME, "secret")) {
        AgentStep::Establish(name) => name,
        _ => panic!("the name has to be resolved"),
    };
    assert_eq!(name, Name::parse(NAME).unwrap());
    assert_eq!(
        reply(agent.handle_request(&request("rtt", NAME, "secret"))),
        "{\"ok\":true,\"rtt_ms\":-1}\n"
    );
    let response = agent.established(NAME, &name, 53412, "peer".to_string());
    assert_eq!(
        response.line(),
        "{\"listen\":\"127.0.0.1:53412\",\"name\":\"abcdefghijklmnop.minecraft\",\"ok\":true}\n"
    );
    let shouted = NAME.to_uppercase();
    assert_eq!(
        reply(agent.handle_request(&request("resolve", &shouted, "secret"))),
        "{\"listen\":\"127.0.0.1:53412\",\"name\":\"ABCDEFGHIJKLMNOP.MINECRAFT\",\"ok\":true}\n"
    );
    assert!(matches!(
        agent.handle_request(&request("rtt", &shouted, "secret")),
        AgentStep::AskRtt(peer) if peer == "peer"
    ));
    assert_eq!(
        reply(agent.handle_request(&request("rtt", "nonsense", "secret"))),
        "{\"ok\":true,\"rtt_ms\":-1}\n"
    );
    assert_eq!(Response::Rtt(Some(17)).line(), "{\"ok\":true,\"rtt_ms\":17}\n");
}

#[test]
fn text_is_escaped() {
    let text = "q\" b\\ n\n t\t r\r \u{8}\u{c} \u{1}\u{1f} / \u{7f} \u{e9}";
    assert_eq!(
        Response::Failed(text.to_string()).line(),
        "{\"error\":\"q\\\" b\\\\ n\\n t\\t r\\r \\b\\f \\u0001\\u001f / \u{7f} \u{e9}\",\"ok\":false}\n"
    );
}

#[test]
fn the_control_file_holds_port_and_token() {
    assert_eq!(
        control_text(42, "abc"),
        "{\"port\":42,\"token\":\"abc\"}"
    );
}

#[test]
fn blank_lines_are_no_requests() {
    assert_eq!(request_text("  \t "), None);
    assert_eq!(request_text(""), None);
    assert_eq!(request_text(" {} \r").as_deref(), Some("{}"));
}

#[test]
fn a_tunnel_does_not_touch_others() {
    let mut agent = Agent::new("t".to_string());
    let (a, b) = (
        Name::parse("aaaaaaaaaaaaaaaa.minecraft").unwrap(),
        Name::parse("bbbbbbbbbbbbbbbb.minecraft").unwrap(),
    );
    agent.established("a", &a, 1, "p".to_string());
    agent.established("b", &b, 2, "q".to_string());
    assert!(matches!(
        agent.handle_request(&request("resolve", &a.to_string(), "t")),
        AgentStep::Reply(Response::Listening { port: 1, .. })
    ));
    assert!(matches!(
        agent.handle_request(&request("rtt", &b.to_string(), "t")),
        AgentStep::AskRtt(peer) if peer == "q"
    ));
    assert!(matches!(
        agent.handle_request(&request("resolve", "cccccccccccccccc.minecraft", "t")),
        AgentStep::Establish(_)
    ));
}
