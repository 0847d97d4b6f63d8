//! What becomes of a request: an answer, a tunnel, or an exchange with the host it is meant for.
use crate::authorization::{
    base64_decoded, check_authorization, claim_admitted, header_claim, law_admission, law_written_header,
    Claim,
};
use crate::clock::LocalTime;
use crate::config::{lemma_readings_exist, readings, Config};
use crate::text::{decimal, decimal_text};
use base64::DecodeError;
use vstd::prelude::*;
use vstd::utf8::encode_utf8;

verus! {

/// What is looked at in a request.
#[derive(Debug)]
pub struct RequestHead {
    pub method: String,
    /// The authority part of the URI, such as `www.example.com:443`.
    pub authority: Option<String>,
    /// The host in the URI.
    pub host: Option<String>,
    /// The port in the URI.
    pub port: Option<u16>,
    /// The content of the header `Proxy-Authorization`.
    pub authorization: Option<Vec<u8>>,
}

/// A response that the proxy makes itself.
#[derive(Debug)]
pub struct Reply {
    pub status: u16,
    /// The content of the header `WWW-Authenticate`, if the response has one.
    pub challenge: Option<String>,
    pub body: String,
}

/// A [`Reply`] with its texts as sequences.
#[verifier::ext_equal]
pub struct Answer {
    pub status: u16,
    pub challenge: Option<Seq<char>>,
    pub body: Seq<char>,
}

/// The content of an optional text.
pub open spec fn text_view(text: Option<String>) -> Option<Seq<char>> {
    match text {
        Some(content) => Some(content@),
        None => None,
    }
}

impl View for Reply {
    type V = Answer;

    open spec fn view(&self) -> Answer {
        Answer { status: self.status, challenge: text_view(self.challenge), body: self.body@ }
    }
}

/// An answer without a challenge.
pub open spec fn plain_answer(status: u16, body: Seq<char>) -> Answer {
    Answer { status, challenge: None, body }
}

/// The answer to a client that is not admitted.
pub open spec fn unauthorized() -> Answer {
    Answer { status: 401, challenge: Some("Basic realm=\"HTTP Proxy\""@), body: Seq::empty() }
}

/// The answer to a request for a host that may not be reached.
pub open spec fn forbidden() -> Answer {
    plain_answer(403, Seq::empty())
}

/// What to do about a request.
#[derive(Debug)]
pub enum Action {
    /// Answer it.
    Respond(Reply),
    /// Answer it with [`tunnel_opened`], and then carry bytes to and from this address.
    Tunnel(String),
    /// Hand it to this host and port; see [`Exchange`].
    Forward(String, u16),
}

/// An [`Action`] with its texts as sequences.
#[verifier::ext_equal]
pub enum Course {
    Respond(Answer),
    Tunnel(Seq<char>),
    Forward(Seq<char>, u16),
}

impl View for Action {
    type V = Course;

    open spec fn view(&self) -> Course {
        match self {
            Action::Respond(reply) => Course::Respond(reply@),
            Action::Tunnel(address) => Course::Tunnel(address@),
            Action::Forward(host, port) => Course::Forward(host@, *port),
        }
    }
}

/// A host and a port with a colon between them.
pub open spec fn host_port_text(host: Seq<char>, port: u16) -> Seq<char> {
    host + seq![':'] + decimal(port as nat)
}

/// What a request asks for, before it is known whether its host may be reached.
pub open spec fn requested(head: RequestHead, admitted: bool) -> Course {
    if !admitted {
        Course::Respond(unauthorized())
    } else if head.method@ == "CONNECT"@ {
        match head.authority {
            Some(authority) => Course::Tunnel(authority@),
            None => Course::Respond(plain_answer(400, "CONNECT must be to a socket address"@)),
        }
    } else {
        match head.host {
            Some(host) => Course::Forward(
                host@,
                match head.port {
                    Some(port) => port,
                    None => 80,
                },
            ),
            None => Course::Respond(
                plain_answer(400, "This is a proxy, not a web server. no HOST found to connect to"@),
            ),
        }
    }
}

impl Course {
    /// The address that is to be reached.
    pub open spec fn address(self) -> Option<Seq<char>> {
        match self {
            Course::Respond(_) => None,
            Course::Tunnel(address) => Some(address),
            Course::Forward(host, port) => Some(host_port_text(host, port)),
        }
    }

    /// The same, provided that its host may be reached.
    pub open spec fn if_reachable(self, access: bool) -> Course {
        if self is Respond || access {
            self
        } else {
            Course::Respond(forbidden())
        }
    }
}

/// Whether the client that makes a request is admitted.
pub open spec fn client_admitted(config: Config, head: RequestHead) -> bool {
    claim_admitted(
        header_claim(
            match head.authorization {
                Some(line) => Some(line@),
                None => None,
            },
        ),
        config,
    )
}

/// What becomes of a request, where the clock reads `times[i]` when it comes to rule `i`. There is
/// none where there is no answer as to whether its host may be reached.
pub open spec fn course(config: Config, head: RequestHead, times: Seq<LocalTime>) -> Option<Course> {
    let wish = requested(head, client_admitted(config, head));
    match wish.address() {
        None => Some(wish),
        Some(address) => match config.access_outcome(address, times) {
            Some(access) => Some(wish.if_reachable(access)),
            None => None,
        },
    }
}

/// Writes a host and a port with a colon between them.
pub fn host_port(host: &str, port: u16) -> (text: String)
    ensures
        text@ == host_port_text(host@, port),
        text@ == host@ + seq![':'] + decimal(port as nat),
{
    proof {
        reveal_strlit(":");
        assert(":"@ =~= seq![':']);
    }
    let mut text = host.to_string();
    text.append(":");
    let number = decimal_text(port);
    text.append(&number);
    text
}

/// The answer that opens a tunnel.
pub fn tunnel_opened() -> (reply: Reply)
    ensures
        reply@ == plain_answer(200, Seq::empty()),
        reply.status == 200 && reply.challenge is None && reply.body@.len() == 0,
{
    Reply { status: 200, challenge: None, body: String::new() }
}

/// Tells what a request asks for, given whether its client is admitted.
pub fn request(head: &RequestHead, admitted: bool) -> (action: Action)
    ensures
        action@ == requested(*head, admitted),
        !admitted ==> (action matches Action::Respond(reply) && reply.status == 401 && (
        reply.challenge matches Some(challenge) && challenge@ == "Basic realm=\"HTTP Proxy\""@)
            && reply.body@.len() == 0),
        admitted && head.method@ == "CONNECT"@ ==> match head.authority {
            Some(authority) => action matches Action::Tunnel(address) && address@ == authority@,
            None => action matches Action::Respond(reply) && reply.status == 400 && reply.challenge is None
                && reply.body@ == "CONNECT must be to a socket address"@,
        },
        admitted && head.method@ != "CONNECT"@ ==> match head.host {
            Some(wanted) => action matches Action::Forward(host, port) && host@ == wanted@ && port == (
            match head.port {
                Some(given) => given,
                None => 80,
            }),
            None => action matches Action::Respond(reply) && reply.status == 400 && reply.challenge is None
                && reply.body@
                == "This is a proxy, not a web server. no HOST found to connect to"@,
        },
{
    if !admitted {
        return Action::Respond(
            Reply {
                status: 401,
                challenge: Some("Basic realm=\"HTTP Proxy\"".to_string()),
                body: String::new(),
            },
        );
    }
    if head.method == "CONNECT".to_string() {
        match &head.authority {
            Some(authority) => Action::Tunnel(authority.clone()),
            None => Action::Respond(
                Reply {
                    status: 400,
                    challenge: None,
                    body: "CONNECT must be to a socket address".to_string(),
                },
            ),
        }
    } else {
        match &head.host {
            Some(host) => Action::Forward(host.clone(), head.port.unwrap_or(80)),
            None => Action::Respond(
                Reply {
                    status: 400,
                    challenge: None,
                    body: "This is a proxy, not a web server. no HOST found to connect to".to_string(),
                },
            ),
        }
    }
}

impl Action {
    /// The address that is to be reached.
    pub fn address(&self) -> (address: Option<String>)
        ensures
            text_view(address) == self@.address(),
            match self {
                Action::Respond(_) => address is None,
                Action::Tunnel(target) => address matches Some(text) && text@ == target@,
                Action::Forward(host, port) => address matches Some(text) && text@ == host@ + seq![':']
                    + decimal(*port as nat),
            },
    {
        match self {
            Action::Respond(_) => None,
            Action::Tunnel(address) => Some(address.clone()),
            Action::Forward(host, port) => Some(host_port(host, *port)),
        }
    }

    /// The same, provided that its host may be reached.
    pub fn if_reachable(self, access: bool) -> (action: Action)
        ensures
            action@ == self@.if_reachable(access),
            access || self is Respond ==> action == self,
            !access && !(self is Respond) ==> (action matches Action::Respond(reply) && reply.status == 403
                && reply.challenge is None && reply.body@.len() == 0),
    {
        if access {
            return self;
        }
        match self {
            Action::Respond(reply) => Action::Respond(reply),
            _ => Action::Respond(Reply { status: 403, challenge: None, body: String::new() }),
        }
    }
}

/// Decides what becomes of a request, unless a rule is come to whose time specification divides by
/// zero. The clock is read for each rule.
pub fn proxy(config: &Config, head: &RequestHead) -> (action: Option<Action>)
    ensures
        exists|times: Seq<LocalTime>|
            readings(times, config.exceptions().len()) && course(*config, *head, times) == (
            match action {
                Some(chosen) => Some(chosen@),
                None => None,
            }),
        (action matches Some(Action::Respond(reply)) && reply.status == 401) <==> config.users@.len() > 0
            && forall|i: int|
            0 <= i < config.users@.len() ==> !(match header_claim(
                match head.authorization {
                    Some(line) => Some(line@),
                    None => None,
                },
            ) {
                Claim::Credentials(username, password) => (#[trigger] config.users@[i]).username@ == username
                    && config.users@[i].password@ == password,
                _ => config.users@[i].username@ == "anonymous"@ && config.users@[i].password@
                    == "anonymous"@,
            }),
        action matches Some(Action::Tunnel(address)) ==> head.method@ == "CONNECT"@ && (
        head.authority matches Some(authority) && address@ == authority@),
        action matches Some(Action::Forward(host, port)) ==> head.method@ != "CONNECT"@ && (
        head.host matches Some(wanted) && host@ == wanted@) && port == (match head.port {
            Some(given) => given,
            None => 80,
        }),
{
    let header = match &head.authorization {
        Some(line) => Some(line.as_slice()),
        None => None,
    };
    let wish = request(head, check_authorization(header, config));
    match wish.address() {
        None => {
            proof {
                let times = lemma_readings_exist(config.exceptions().len());
                assert(course(*config, *head, times) == Some(wish@));
            }
            Some(wish)
        },
        Some(address) => {
            let access = config.checked_access(&address);
            let ghost times = choose|times: Seq<LocalTime>|
                readings(times, config.exceptions().len()) && access == config.access_outcome(
                    address@,
                    times,
                );
            let ghost decided = course(*config, *head, times);
            match access {
                Some(access) => {
                    assert(decided == Some(wish@.if_reachable(access)));
                    Some(wish.if_reachable(access))
                },
                None => {
                    assert(decided is None);
                    None
                },
            }
        },
    }
}

/// A client that is not admitted is told so, whatever it asks for and whatever the time.
pub proof fn law_not_admitted(config: Config, head: RequestHead, times: Seq<LocalTime>)
    requires
        !client_admitted(config, head),
    ensures
        course(config, head, times) == Some(Course::Respond(unauthorized())),
{
}

/// A request of an admitted client for an address that may not be reached is refused.
pub proof fn law_not_reachable(config: Config, head: RequestHead, times: Seq<LocalTime>, address: Seq<char>)
    requires
        client_admitted(config, head),
        requested(head, true).address() == Some(address),
        config.access_outcome(address, times) == Some(false),
    ensures
        course(config, head, times) == Some(Course::Respond(forbidden())),
{
}

/// A connection is made for an admitted client alone, to the address that it asks for, and only if
/// that may be reached.
pub proof fn law_connection_is_permitted(
    config: Config,
    head: RequestHead,
    times: Seq<LocalTime>,
    chosen: Course,
    address: Seq<char>,
)
    requires
        course(config, head, times) == Some(chosen),
        chosen.address() == Some(address),
    ensures
        client_admitted(config, head),
        chosen == requested(head, true),
        config.access_outcome(address, times) == Some(true),
{
}

/// An admitted client that asks for an address that may be reached gets the connection.
pub proof fn law_permitted_connection(
    config: Config,
    head: RequestHead,
    times: Seq<LocalTime>,
    address: Seq<char>,
)
    requires
        client_admitted(config, head),
        requested(head, true).address() == Some(address),
        config.access_outcome(address, times) == Some(true),
    ensures
        course(config, head, times) == Some(requested(head, true)),
{
}

/// What the proxy answers in place of a connection is a refusal; a challenge comes with status 401
/// and no other.
pub proof fn law_answers_are_refusals(
    config: Config,
    head: RequestHead,
    times: Seq<LocalTime>,
    answer: Answer,
)
    requires
        course(config, head, times) == Some(Course::Respond(answer)),
    ensures
        answer.status == 400 || answer.status == 401 || answer.status == 403,
        answer.challenge is Some <==> answer.status == 401,
{
}

/// Where there are users, and none of them has the name and the password that the header of a
/// request carries, or, where it carries none, is `anonymous` with the password `anonymous`, the
/// request is answered with a challenge, whatever its method, its target, the rules and the time.
pub proof fn law_unlisted_client_is_challenged(
    config: Config,
    head: RequestHead,
    times: Seq<LocalTime>,
    username: Seq<char>,
    password: Seq<char>,
)
    requires
        config.users@.len() > 0,
        match header_claim(
            match head.authorization {
                Some(line) => Some(line@),
                None => None,
            },
        ) {
            Claim::Credentials(name, secret) => name == username && secret == password,
            _ => username == "anonymous"@ && password == "anonymous"@,
        },
        forall|i: int|
            0 <= i < config.users@.len() ==> !((#[trigger] config.users@[i]).username@ == username
                && config.users@[i].password@ == password),
    ensures
        course(config, head, times) == Some(
            Course::Respond(
                Answer {
                    status: 401,
                    challenge: Some("Basic realm=\"HTTP Proxy\""@),
                    body: Seq::empty(),
                },
            ),
        ),
{
}

/// Where one of the users has the name and the password that the header of a request carries, or,
/// where it carries none, is `anonymous` with the password `anonymous`, there is no challenge.
pub proof fn law_listed_client_is_not_challenged(
    config: Config,
    head: RequestHead,
    times: Seq<LocalTime>,
    i: int,
)
    requires
        0 <= i < config.users@.len(),
        match header_claim(
            match head.authorization {
                Some(line) => Some(line@),
                None => None,
            },
        ) {
            Claim::Credentials(username, password) => config.users@[i].username@ == username
                && config.users@[i].password@ == password,
            _ => config.users@[i].username@ == "anonymous"@ && config.users@[i].password@
                == "anonymous"@,
        },
    ensures
        !(course(config, head, times) matches Some(Course::Respond(answer)) && answer.status == 401),
{
}

/// A request whose header is written as a scheme, a space and a word that decodes to
/// the UTF-8 form of a name and a password with a colon between them, or that has no header: where
/// there are users, it is challenged if and only if none of them has that name and that password.
pub proof fn law_written_credentials_decide(
    config: Config,
    head: RequestHead,
    times: Seq<LocalTime>,
    scheme: Seq<u8>,
    word: Seq<u8>,
    decoded: Seq<u8>,
    username: Seq<char>,
    password: Seq<char>,
)
    requires
        config.users@.len() > 0,
        match head.authorization {
            Some(line) => {
                &&& line@ == scheme + seq![32u8] + word
                &&& scheme.len() > 0
                &&& word.len() > 0
                &&& forall|i: int| 0 <= i < scheme.len() ==> 32 < #[trigger] scheme[i] < 127
                &&& forall|i: int| 0 <= i < word.len() ==> 32 < #[trigger] word[i] < 127
                &&& base64_decoded(word) == Ok::<Seq<u8>, DecodeError>(decoded)
                &&& decoded == encode_utf8(username + seq![':'] + password)
                &&& !username.contains(':')
            },
            None => username == "anonymous"@ && password == "anonymous"@,
        },
    ensures
        course(config, head, times) == Some(
            Course::Respond(
                Answer {
                    status: 401,
                    challenge: Some("Basic realm=\"HTTP Proxy\""@),
                    body: Seq::empty(),
                },
            ),
        ) <==> forall|i: int|
            0 <= i < config.users@.len() ==> !((#[trigger] config.users@[i]).username@ == username
                && config.users@[i].password@ == password),
{
    if let Some(line) = head.authorization {
        law_written_header(scheme, word, decoded, username, password);
        law_admission(Some(line@), config, username, password);
    } else {
        law_admission(None, config, username, password);
    }
}

/// Whether a request is answered with a challenge depends on its header and the users alone. Two
/// requests with the same header are challenged both or neither, whatever their methods and
/// targets, under configurations with the same users, whatever the rules and the time.
pub proof fn law_challenge_depends_on_header_and_users(
    config: Config,
    other_config: Config,
    head: RequestHead,
    other_head: RequestHead,
    times: Seq<LocalTime>,
    other_times: Seq<LocalTime>,
)
    requires
        config.users@ == other_config.users@,
        match (head.authorization, other_head.authorization) {
            (Some(line), Some(other_line)) => line@ == other_line@,
            (None, None) => true,
            _ => false,
        },
    ensures
        (course(config, head, times) matches Some(Course::Respond(answer)) && answer.status == 401) <==> (
        course(other_config, other_head, other_times) matches Some(Course::Respond(answer))
            && answer.status == 401),
{
}

/// Without users no request is answered with a challenge.
pub proof fn law_no_users_no_challenge(config: Config, head: RequestHead, times: Seq<LocalTime>)
    requires
        config.users@.len() == 0,
    ensures
        !(course(config, head, times) matches Some(Course::Respond(answer)) && answer.status == 401),
{
}

/// A request with the method `CONNECT` and an authority, of a client that is not challenged: the
/// authority, as it stands, is what is held against the rules, and the address of the tunnel,
/// whatever host and port are.
pub proof fn law_tunnel_leads_to_the_authority(
    config: Config,
    head: RequestHead,
    times: Seq<LocalTime>,
    authority: String,
)
    requires
        !(course(config, head, times) matches Some(Course::Respond(answer)) && answer.status == 401),
        head.method@ == "CONNECT"@,
        head.authority == Some(authority),
    ensures
        course(config, head, times) == (match config.access_outcome(authority@, times) {
            Some(true) => Some(Course::Tunnel(authority@)),
            Some(false) => Some(
                Course::Respond(Answer { status: 403, challenge: None, body: Seq::empty() }),
            ),
            None => None,
        }),
{
}

/// A request with any other method and a host, of a client that is not challenged: the host, a
/// colon and the port, which is 80 if none is given, are held against the rules, and the request
/// is forwarded to that host and that port.
pub proof fn law_request_is_forwarded_to_its_host(
    config: Config,
    head: RequestHead,
    times: Seq<LocalTime>,
    host: String,
    port: u16,
)
    requires
        !(course(config, head, times) matches Some(Course::Respond(answer)) && answer.status == 401),
        head.method@ != "CONNECT"@,
        head.host == Some(host),
        head.port == Some(port) || (head.port is None && port == 80),
    ensures
        course(config, head, times) == (match config.access_outcome(
            host@ + seq![':'] + decimal(port as nat),
            times,
        ) {
            Some(true) => Some(Course::Forward(host@, port)),
            Some(false) => Some(
                Course::Respond(Answer { status: 403, challenge: None, body: Seq::empty() }),
            ),
            None => None,
        }),
{
}

/// A request without the target that its method needs, of a client that is not challenged, is
/// answered with what is wrong with it, whatever the rules and the time.
pub proof fn law_request_without_target(config: Config, head: RequestHead, times: Seq<LocalTime>)
    requires
        !(course(config, head, times) matches Some(Course::Respond(answer)) && answer.status == 401),
    ensures
        head.method@ == "CONNECT"@ && head.authority is None ==> course(config, head, times) == Some(
            Course::Respond(
                Answer { status: 400, challenge: None, body: "CONNECT must be to a socket address"@ },
            ),
        ),
        head.method@ != "CONNECT"@ && head.host is None ==> course(config, head, times) == Some(
            Course::Respond(
                Answer {
                    status: 400,
                    challenge: None,
                    body: "This is a proxy, not a web server. no HOST found to connect to"@,
                },
            ),
        ),
{
}

/// What a client that is admitted asks for, by its method: the authority of a `CONNECT`, and the
/// host and port of any other request. What one that is not admitted asks for makes no difference.
pub proof fn law_requested(head: RequestHead)
    ensures
        requested(head, false) == Course::Respond(
            Answer {
                status: 401,
                challenge: Some("Basic realm=\"HTTP Proxy\""@),
                body: Seq::empty(),
            },
        ),
        head.method@ == "CONNECT"@ ==> match head.authority {
            Some(authority) => requested(head, true) == Course::Tunnel(authority@) && requested(
                head,
                true,
            ).address() == Some(authority@),
            None => requested(head, true).address() is None,
        },
        head.method@ != "CONNECT"@ ==> match (head.host, head.port) {
            (Some(host), Some(port)) => requested(head, true) == Course::Forward(host@, port) && requested(
                head,
                true,
            ).address() == Some(host@ + seq![':'] + decimal(port as nat)),
            (Some(host), None) => requested(head, true) == Course::Forward(host@, 80) && requested(
                head,
                true,
            ).address() == Some(host@ + seq![':'] + decimal(80)),
            (None, _) => requested(head, true).address() is None,
        },
{
}

} // verus!
