use http_proxy::config::{Config, Rule, User};
use http_proxy::exchange::{Event, Exchange, Stage, Step};
use http_proxy::proxy::{host_port, proxy, request, tunnel_opened, Action, Reply, RequestHead};

fn config(regex: &str) -> Config {
    Config {
        bind_addr: None,
        bind_port: None,
        users: vec![],
        default_allow: Some(false),
        allowed: vec![Rule { timespec: "* * * * *".to_string(), regex: regex.to_string() }],
        blocked: vec![],
    }
}

fn head(method: &str, authority: Option<&str>, host: Option<&str>, port: Option<u16>) -> RequestHead {
    RequestHead {
        method: method.to_string(),
        authority: authority.map(|text| text.to_string()),
        host: host.map(|text| text.to_string()),
        port,
        authorization: None,
    }
}

fn reply(action: Option<Action>) -> Reply {
    match action {
        Some(Action::Respond(reply)) => reply,
        other => panic!("{:?}", other),
    }
}

#[test]
fn a_host_and_a_port() {
    assert_eq!(host_port("example.com", 0), "example.com:0");
    assert_eq!(host_port("0.0.0.0", 3000), "0.0.0.0:3000");
    assert_eq!(host_port("", 65535), ":65535");
}

#[test]
fn a_client_that_is_not_admitted_is_challenged() {
    let mut config = config(".");
    config.users = vec![User { username: "u".to_string(), password: "p".to_string() }];
    let reply = reply(proxy(&config, &head("CONNECT", Some("a:443"), None, None)));
    assert_eq!(reply.status, 401);
    assert_eq!(reply.challenge.as_deref(), Some("Basic realm=\"HTTP Proxy\""));
    assert_eq!(reply.body, "");
}

#[test]
fn a_client_is_admitted_by_its_header() {
    let mut config = config(".");
    config.users = vec![User { username: "user".to_string(), password: "pass".to_string() }];
    let mut head = head("CONNECT", Some("a:443"), None, None);
    head.authorization = Some(b"Basic dXNlcjpwYXNz".to_vec());
    assert!(matches!(proxy(&config, &head), Some(Action::Tunnel(address)) if address == "a:443"));
}

#[test]
fn a_tunnel_to_an_allowed_address() {
    match proxy(&config("^good:443$"), &head("CONNECT", Some("good:443"), Some("good"), Some(443))) {
        Some(Action::Tunnel(address)) => assert_eq!(address, "good:443"),
        other => panic!("{:?}", other),
    }
    let opened = tunnel_opened();
    assert_eq!((opened.status, opened.challenge, opened.body.as_str()), (200, None, ""));
}

#[test]
fn an_address_that_may_not_be_reached() {
    for head in [
        head("CONNECT", Some("bad:443"), None, None),
        head("GET", Some("bad"), Some("bad"), None),
    ] {
        let reply = reply(proxy(&config("^good"), &head));
        assert_eq!((reply.status, reply.challenge, reply.body.as_str()), (403, None, ""));
    }
}

#[test]
fn a_tunnel_needs_an_address() {
    let reply = reply(proxy(&config("."), &head("CONNECT", None, Some("host"), None)));
    assert_eq!(reply.status, 400);
    assert_eq!(reply.body, "CONNECT must be to a socket address");
}

#[test]
fn a_request_needs_a_host() {
    let reply = reply(proxy(&config("."), &head("GET", Some("host"), None, None)));
    assert_eq!(reply.status, 400);
    assert_eq!(reply.body, "This is a proxy, not a web server. no HOST found to connect to");
}

#[test]
fn a_request_goes_to_its_port_or_to_port_80() {
    match proxy(&config("^host:80$"), &head("GET", None, Some("host"), None)) {
        Some(Action::Forward(host, port)) => assert_eq!((host.as_str(), port), ("host", 80)),
        other => panic!("{:?}", other),
    }
    match proxy(&config("^host:8080$"), &head("connect", None, Some("host"), Some(8080))) {
        Some(Action::Forward(host, port)) => assert_eq!((host.as_str(), port), ("host", 8080)),
        other => panic!("{:?}", other),
    }
}

#[test]
fn no_answer_where_a_rule_divides_by_zero() {
    let mut config = config(".");
    config.allowed[0].timespec = "*/0 * * * *".to_string();
    assert!(proxy(&config, &head("GET", None, Some("host"), None)).is_none());
    assert_eq!(reply(proxy(&config, &head("GET", None, None, None))).status, 400);
}

#[test]
fn a_wish_and_its_address() {
    let wish = request(&head("GET", None, Some("host"), Some(81)), true);
    assert_eq!(wish.address().as_deref(), Some("host:81"));
    assert!(matches!(wish.if_reachable(true), Action::Forward(_, 81)));
    let refusal = request(&head("GET", None, Some("host"), Some(81)), false);
    assert_eq!(refusal.address(), None);
    assert_eq!(reply(Some(refusal.if_reachable(false))).status, 401);
}

#[test]
fn an_exchange_that_goes_well() {
    let mut exchange = Exchange::new("host".to_string(), 80);
    assert!(matches!(exchange.advance(Event::Succeeded), Step::Handshake));
    assert!(matches!(exchange.advance(Event::Succeeded), Step::Send));
    assert!(matches!(exchange.advance(Event::Succeeded), Step::Relay));
    assert_eq!(exchange.stage, Stage::Finished);
}

#[test]
fn an_exchange_that_fails() {
    let expected = [
        (400, "connect to (host:80) failed: why"),
        (502, "handshake with (host:80) failed: why"),
        (502, "send_request with (host:80) failed: why"),
    ];
    for (good_steps, (status, body)) in expected.iter().enumerate() {
        let mut exchange = Exchange::new("host".to_string(), 80);
        for _ in 0..good_steps {
            exchange.advance(Event::Succeeded);
        }
        match exchange.advance(Event::Failed("why".to_string())) {
            Step::Respond(reply) => {
                assert_eq!(reply.status, *status);
                assert_eq!(reply.challenge, None);
                assert_eq!(&reply.body, body);
            },
            other => panic!("{:?}", other),
        }
        assert_eq!(exchange.stage, Stage::Finished);
    }
}
