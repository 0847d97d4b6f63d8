//! The exchange with the host that a request is handed to.
use crate::proxy::{host_port, host_port_text, plain_answer, Answer, Reply};
use crate::text::decimal;
use vstd::prelude::*;

verus! {

/// How far an exchange has come.
#[derive(Debug, Clone, Copy, PartialEq, Eq, Structural)]
pub enum Stage {
    /// A connection is being opened.
    Connecting,
    /// The connection is open, and HTTP is being set up on it.
    Handshaking,
    /// The request is being sent, and the response awaited.
    Sending,
    /// The client is being answered.
    Finished,
}

/// How the pending step of an exchange went.
#[derive(Debug)]
pub enum Event {
    Succeeded,
    /// It failed, and this is the cause.
    Failed(String),
}

/// What to do next in an exchange.
#[derive(Debug)]
pub enum Step {
    /// Set up HTTP on the connection.
    Handshake,
    /// Send the request.
    Send,
    /// Pass the response of the host on to the client.
    Relay,
    /// Answer the client.
    Respond(Reply),
}

/// A [`Step`] with its texts as sequences.
#[verifier::ext_equal]
pub enum Move {
    Handshake,
    Send,
    Relay,
    Respond(Answer),
}

impl View for Step {
    type V = Move;

    open spec fn view(&self) -> Move {
        match self {
            Step::Handshake => Move::Handshake,
            Step::Send => Move::Send,
            Step::Relay => Move::Relay,
            Step::Respond(reply) => Move::Respond(reply@),
        }
    }
}

/// An exchange with a host; it begins with the opening of a connection.
#[derive(Debug)]
pub struct Exchange {
    pub host: String,
    pub port: u16,
    pub stage: Stage,
}

impl Event {
    /// The cause of a failure.
    pub open spec fn cause(self) -> Option<Seq<char>> {
        match self {
            Event::Succeeded => None,
            Event::Failed(cause) => Some(cause@),
        }
    }
}

/// The stage after a step that went well.
pub open spec fn next_stage(stage: Stage) -> Stage {
    match stage {
        Stage::Connecting => Stage::Handshaking,
        Stage::Handshaking => Stage::Sending,
        Stage::Sending => Stage::Finished,
        Stage::Finished => Stage::Finished,
    }
}

/// What is done on entering a stage after a step that went well.
pub open spec fn next_move(stage: Stage) -> Move {
    match stage {
        Stage::Connecting => Move::Handshake,
        Stage::Handshaking => Move::Send,
        _ => Move::Relay,
    }
}

/// The status of the answer to a client when a step fails: a host that cannot be connected to is
/// put down to the request.
pub open spec fn failure_status(stage: Stage) -> u16 {
    if stage == Stage::Connecting {
        400
    } else {
        502
    }
}

/// What the step of a stage is called in the answer to a client.
pub open spec fn failure_label(stage: Stage) -> Seq<char> {
    match stage {
        Stage::Connecting => "connect to ("@,
        Stage::Handshaking => "handshake with ("@,
        _ => "send_request with ("@,
    }
}

/// The answer to a client when the step of a stage fails.
pub open spec fn failure_answer(stage: Stage, host: Seq<char>, port: u16, cause: Seq<char>) -> Answer {
    plain_answer(
        failure_status(stage),
        failure_label(stage) + host_port_text(host, port) + ") failed: "@ + cause,
    )
}

/// The stage after a step: a failure ends the exchange.
pub open spec fn stage_after(stage: Stage, failure: Option<Seq<char>>) -> Stage {
    if failure is Some {
        Stage::Finished
    } else {
        next_stage(stage)
    }
}

/// What is done after a step: a failure is answered.
pub open spec fn move_after(stage: Stage, host: Seq<char>, port: u16, failure: Option<Seq<char>>) -> Move {
    match failure {
        Some(cause) => Move::Respond(failure_answer(stage, host, port, cause)),
        None => next_move(stage),
    }
}

impl Exchange {
    /// Begins an exchange.
    pub fn new(host: String, port: u16) -> (exchange: Exchange)
        ensures
            exchange.host == host,
            exchange.port == port,
            exchange.stage == Stage::Connecting,
    {
        Exchange { host, port, stage: Stage::Connecting }
    }

    /// Tells what to do after the pending step: go on if it went well, and otherwise answer the
    /// client.
    pub fn advance(&mut self, event: Event) -> (step: Step)
        requires
            old(self).stage != Stage::Finished,
        ensures
            final(self).host == old(self).host,
            final(self).port == old(self).port,
            final(self).stage == stage_after(old(self).stage, event.cause()),
            step@ == move_after(old(self).stage, old(self).host@, old(self).port, event.cause()),
            event is Succeeded ==> match old(self).stage {
                Stage::Connecting => step is Handshake && final(self).stage == Stage::Handshaking,
                Stage::Handshaking => step is Send && final(self).stage == Stage::Sending,
                _ => step is Relay && final(self).stage == Stage::Finished,
            },
            event matches Event::Failed(cause) ==> final(self).stage == Stage::Finished && (
            step matches Step::Respond(reply) && reply.challenge is None && (match old(self).stage {
                Stage::Connecting => reply.status == 400 && reply.body@ == "connect to ("@ + old(
                    self,
                ).host@ + seq![':'] + decimal(old(self).port as nat) + ") failed: "@ + cause@,
                Stage::Handshaking => reply.status == 502 && reply.body@ == "handshake with ("@ + old(
                    self,
                ).host@ + seq![':'] + decimal(old(self).port as nat) + ") failed: "@ + cause@,
                _ => reply.status == 502 && reply.body@ == "send_request with ("@ + old(self).host@
                    + seq![':'] + decimal(old(self).port as nat) + ") failed: "@ + cause@,
            })),
    {
        let stage = self.stage;
        match event {
            Event::Succeeded => match stage {
                Stage::Connecting => {
                    self.stage = Stage::Handshaking;
                    Step::Handshake
                },
                Stage::Handshaking => {
                    self.stage = Stage::Sending;
                    Step::Send
                },
                _ => {
                    self.stage = Stage::Finished;
                    Step::Relay
                },
            },
            Event::Failed(cause) => {
                self.stage = Stage::Finished;
                let (status, label): (u16, &str) = match stage {
                    Stage::Connecting => (400, "connect to ("),
                    Stage::Handshaking => (502, "handshake with ("),
                    _ => (502, "send_request with ("),
                };
                let mut body = label.to_string();
                let address = host_port(&self.host, self.port);
                body.append(&address);
                body.append(") failed: ");
                body.append(&cause);
                proof {
                    assert(label@ + (self.host@ + seq![':'] + decimal(self.port as nat)) =~= label@
                        + self.host@ + seq![':'] + decimal(self.port as nat));
                }
                Step::Respond(Reply { status, challenge: None, body })
            },
        }
    }
}

/// The number of steps that may still be taken in an exchange.
pub open spec fn steps_left(stage: Stage) -> nat {
    match stage {
        Stage::Connecting => 3,
        Stage::Handshaking => 2,
        Stage::Sending => 1,
        Stage::Finished => 0,
    }
}

/// Every step brings an exchange nearer to its end, so the client is answered after three steps at
/// most; and the client is answered, by the host or by the proxy, when the exchange ends and not
/// before.
pub proof fn law_exchange_ends(stage: Stage, host: Seq<char>, port: u16, failure: Option<Seq<char>>)
    requires
        stage != Stage::Finished,
    ensures
        steps_left(stage) <= 3,
        steps_left(stage_after(stage, failure)) < steps_left(stage),
        stage_after(stage, failure) == Stage::Finished <==> (move_after(stage, host, port, failure) is Relay
            || move_after(stage, host, port, failure) is Respond),
        move_after(stage, host, port, failure) is Respond <==> failure is Some,
{
}

/// A failed step is answered with an error, whatever the host, the port and the cause.
pub proof fn law_failure_is_error(stage: Stage, host: Seq<char>, port: u16, cause: Seq<char>)
    ensures
        400 <= failure_answer(stage, host, port, cause).status < 600,
        failure_answer(stage, host, port, cause).challenge is None,
{
}

/// The order of an exchange whose steps all go well: connection, handshake, request, and the
/// response of the host.
pub proof fn law_order_of_exchange(host: Seq<char>, port: u16)
    ensures
        move_after(Stage::Connecting, host, port, None) == Move::Handshake,
        stage_after(Stage::Connecting, None) == Stage::Handshaking,
        move_after(Stage::Handshaking, host, port, None) == Move::Send,
        stage_after(Stage::Handshaking, None) == Stage::Sending,
        move_after(Stage::Sending, host, port, None) == Move::Relay,
        stage_after(Stage::Sending, None) == Stage::Finished,
{
}

/// A failure at any stage ends the exchange with an answer that names the step, the host with its
/// port, and the cause. That a host cannot be connected to is the fault of the request; what fails
/// after that is the fault of the host.
pub proof fn law_failure_ends_the_exchange(stage: Stage, host: Seq<char>, port: u16, cause: Seq<char>)
    requires
        stage != Stage::Finished,
    ensures
        stage_after(stage, Some(cause)) == Stage::Finished,
        move_after(stage, host, port, Some(cause)) == Move::Respond(
            Answer {
                status: if stage == Stage::Connecting {
                    400
                } else {
                    502
                },
                challenge: None,
                body: (match stage {
                    Stage::Connecting => "connect to ("@,
                    Stage::Handshaking => "handshake with ("@,
                    _ => "send_request with ("@,
                }) + (host + seq![':'] + decimal(port as nat)) + ") failed: "@ + cause,
            },
        ),
{
}

} // verus!
