//! The typed request/response model of the server.
//!
//! A request carries a caller-supplied identifier (the 128 bits of a UUID)
//! and a command; a response is either a success carrying a result document
//! or an error carrying a message. A batch command nests whole requests, so
//! the model is recursive.

use vstd::prelude::*;

use crate::json::{spec_json_of, JsonNumber, JsonValue, SpecJson};

verus! {

/// The arithmetic operations of the calculator command.
#[derive(Clone, Copy, PartialEq, Eq, Structural, Debug)]
pub enum Operation {
    Add,
    Subtract,
    Multiply,
    Divide,
}

/// The kind of a command, without its payload: the key under which the
/// metrics aggregator files a command's statistics, so that distinct
/// payloads do not fragment them.
#[derive(Clone, Copy, PartialEq, Eq, Structural, Debug)]
pub enum CommandKind {
    Ping,
    Echo,
    Time,
    Calculate,
    Batch,
}

/// A command the server can perform, with its payload.
#[derive(PartialEq, Eq, Debug)]
pub enum Command {
    /// Answered with the string "pong".
    Ping,
    /// Answered with the payload, returned unmodified.
    Echo(JsonValue),
    /// Answered with the current UTC time in RFC 3339 format.
    Time,
    /// Answered with the result of `operation` applied to `a` and `b`,
    /// read as IEEE-754 doubles.
    Calculate { operation: Operation, a: JsonNumber, b: JsonNumber },
    /// Answered with one response per nested request, in order.
    Batch(Vec<Request>),
}

/// A decoded request: the caller's identifier and the command to perform.
#[derive(PartialEq, Eq, Debug)]
pub struct Request {
    /// The caller-supplied identifier (the 128 bits of a UUID), echoed back
    /// in the matching response.
    pub request_id: u128,
    /// The action the server is asked to perform.
    pub command: Command,
}

/// The model of a command.
pub enum SpecCommand {
    Ping,
    Echo(SpecJson),
    Time,
    Calculate { operation: Operation, a: JsonNumber, b: JsonNumber },
    Batch(Seq<SpecRequest>),
}

/// The model of a request.
pub struct SpecRequest {
    pub request_id: u128,
    pub command: SpecCommand,
}

/// The model of a request.
pub open spec fn spec_request_of(r: Request) -> SpecRequest
    decreases r, 3int,
{
    SpecRequest { request_id: r.request_id, command: spec_command_of(r.command) }
}

/// The model of a command.
pub open spec fn spec_command_of(c: Command) -> SpecCommand
    decreases c, 2int,
{
    match c {
        Command::Ping => SpecCommand::Ping,
        Command::Echo(v) => SpecCommand::Echo(spec_json_of(v)),
        Command::Time => SpecCommand::Time,
        Command::Calculate { operation, a, b } => SpecCommand::Calculate { operation, a, b },
        Command::Batch(items) => {
            proof {
                assert(decreases_to!(c => items));
                assert(decreases_to!(items => items@));
            }
            SpecCommand::Batch(spec_request_seq(items@))
        },
    }
}

/// The models of the elements of a batch.
pub open spec fn spec_request_seq(s: Seq<Request>) -> Seq<SpecRequest>
    decreases s, 4int,
{
    if s.len() == 0 {
        Seq::empty()
    } else {
        seq![spec_request_of(s[0])] + spec_request_seq(s.subrange(1, s.len() as int))
    }
}

/// A batch's model has one request for each element, in order.
pub proof fn lemma_spec_request_seq(s: Seq<Request>)
    ensures
        spec_request_seq(s) == Seq::new(s.len(), |i: int| spec_request_of(s[i])),
    decreases s.len(),
{
    let goal = Seq::new(s.len(), |i: int| spec_request_of(s[i]));
    if s.len() == 0 {
        assert(spec_request_seq(s) =~= goal);
    } else {
        lemma_spec_request_seq(s.subrange(1, s.len() as int));
        assert(spec_request_seq(s) =~= goal);
    }
}

impl View for Command {
    type V = SpecCommand;

    open spec fn view(&self) -> SpecCommand {
        spec_command_of(*self)
    }
}

impl View for Request {
    type V = SpecRequest;

    open spec fn view(&self) -> SpecRequest {
        spec_request_of(*self)
    }
}

/// The kind of a command's model.
pub open spec fn spec_kind(c: SpecCommand) -> CommandKind {
    match c {
        SpecCommand::Ping => CommandKind::Ping,
        SpecCommand::Echo(_) => CommandKind::Echo,
        SpecCommand::Time => CommandKind::Time,
        SpecCommand::Calculate { .. } => CommandKind::Calculate,
        SpecCommand::Batch(_) => CommandKind::Batch,
    }
}

impl Command {
    /// The simplified classification of this command, without its payload.
    pub fn kind(&self) -> (k: CommandKind)
        ensures
            k == spec_kind(self@),
    {
        match self {
            Command::Ping => CommandKind::Ping,
            Command::Echo(_) => CommandKind::Echo,
            Command::Time => CommandKind::Time,
            Command::Calculate { .. } => CommandKind::Calculate,
            Command::Batch(_) => CommandKind::Batch,
        }
    }
}

/// Whether a response is a success or an error; part of the wire shape.
#[derive(Clone, Copy, PartialEq, Eq, Structural, Debug)]
pub enum Status {
    Success,
    Error,
}

/// A successful response: the original request's identifier and the result
/// document of the executed command.
#[derive(PartialEq, Eq, Debug)]
pub struct OkResponse {
    /// The identifier of the original request, unmodified.
    pub request_id: u128,
    /// Always `Status::Success` for this type.
    pub status: Status,
    /// The result of the executed command.
    pub response: JsonValue,
}

/// An error response: the original request's identifier, where one could be
/// read, and a description of what went wrong.
#[derive(PartialEq, Eq, Debug)]
pub struct ErrorResponse {
    /// The identifier of the original request; `None` only when the input
    /// could not be decoded into a request at all.
    pub request_id: Option<u128>,
    /// Always `Status::Error` for this type.
    pub status: Status,
    /// A description of the error.
    pub error: String,
}

/// A server response to one request.
#[derive(PartialEq, Eq, Debug)]
pub enum Response {
    Success(OkResponse),
    Error(ErrorResponse),
}

/// The model of a successful response.
pub struct SpecOkResponse {
    pub request_id: u128,
    pub status: Status,
    pub response: SpecJson,
}

/// The model of an error response.
pub struct SpecErrorResponse {
    pub request_id: Option<u128>,
    pub status: Status,
    pub error: Seq<char>,
}

/// The model of a response.
pub enum SpecResponse {
    Success(SpecOkResponse),
    Error(SpecErrorResponse),
}

impl View for Response {
    type V = SpecResponse;

    open spec fn view(&self) -> SpecResponse {
        match *self {
            Response::Success(ok) => SpecResponse::Success(
                SpecOkResponse {
                    request_id: ok.request_id,
                    status: ok.status,
                    response: spec_json_of(ok.response),
                },
            ),
            Response::Error(e) => SpecResponse::Error(
                SpecErrorResponse { request_id: e.request_id, status: e.status, error: e.error@ },
            ),
        }
    }
}

/// A well-formed response carries the status its variant stands for.
pub open spec fn spec_response_wf(r: SpecResponse) -> bool {
    match r {
        SpecResponse::Success(ok) => ok.status == Status::Success,
        SpecResponse::Error(e) => e.status == Status::Error,
    }
}

/// The model of the successful response to request `id` with result `v`.
pub open spec fn spec_ok_response(id: u128, v: SpecJson) -> SpecResponse {
    SpecResponse::Success(SpecOkResponse { request_id: id, status: Status::Success, response: v })
}

/// The model of the error response to request `id` with message `msg`.
pub open spec fn spec_error_response(id: u128, msg: Seq<char>) -> SpecResponse {
    SpecResponse::Error(
        SpecErrorResponse { request_id: Some(id), status: Status::Error, error: msg },
    )
}

} // verus!
