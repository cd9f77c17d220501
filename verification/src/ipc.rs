//! The messages of the control protocol.

use crate::supervisor::{StatusLine, StatusRow};
use vstd::prelude::*;

verus! {

/// What a client asks for.
#[allow(inconsistent_fields)]
pub enum IpcRequest {
    /// The snapshot of all services.
    Status,
    /// Stop the named services, or all of them where none is named.
    Stop { services: Vec<String> },
    /// Restart one service.
    Restart { service: String },
    /// Stream log lines, of one service where one is named.
    Logs { service: Option<String>, follow: bool },
    /// The most recent retained lines, then the end of the connection.
    History { service: Option<String>, lines: usize },
}

/// What the daemon answers.
pub enum IpcResponse {
    /// The request was carried out; there is nothing to report.
    Done,
    Status { rows: Vec<StatusRow> },
    LogLine { service: String, line: String },
    Error { msg: String },
}

/// What a response holds.
pub enum ResponseModel {
    Done,
    Status { rows: Seq<StatusLine> },
    LogLine { service: Seq<char>, line: Seq<char> },
    Error { msg: Seq<char> },
}

/// What status rows hold, in order.
pub open spec fn status_lines(rows: Seq<StatusRow>) -> Seq<StatusLine> {
    Seq::new(rows.len(), |i: int| rows[i]@)
}

impl View for IpcResponse {
    type V = ResponseModel;

    open spec fn view(&self) -> ResponseModel {
        match self {
            IpcResponse::Done => ResponseModel::Done,
            IpcResponse::Status { rows } => ResponseModel::Status { rows: status_lines(rows@) },
            IpcResponse::LogLine { service, line } => ResponseModel::LogLine {
                service: service@,
                line: line@,
            },
            IpcResponse::Error { msg } => ResponseModel::Error { msg: msg@ },
        }
    }
}

/// What responses hold, in order.
pub open spec fn response_models(responses: Seq<IpcResponse>) -> Seq<ResponseModel> {
    Seq::new(responses.len(), |i: int| responses[i]@)
}

/// How many responses a request is answered with.
#[derive(Clone, Copy, Debug, PartialEq, Eq, Structural)]
pub enum Answers {
    /// None: the connection waits for the next request.
    Nothing,
    /// Exactly one.
    One,
    /// Any number, until the connection is closed.
    UntilClosed,
}

/// How many responses a request is answered with: one for a status, stop or
/// restart request; a stream for a history request and for a logs request
/// that follows; none for a logs request that does not follow.
pub open spec fn answers_to(request: IpcRequest) -> Answers {
    match request {
        IpcRequest::Status => Answers::One,
        IpcRequest::Stop { .. } => Answers::One,
        IpcRequest::Restart { .. } => Answers::One,
        IpcRequest::Logs { follow, .. } => if follow {
            Answers::UntilClosed
        } else {
            Answers::Nothing
        },
        IpcRequest::History { .. } => Answers::UntilClosed,
    }
}

/// How many responses a request is answered with.
pub fn expected_answers(request: &IpcRequest) -> (answers: Answers)
    ensures
        answers == answers_to(*request),
{
    match request {
        IpcRequest::Status => Answers::One,
        IpcRequest::Stop { .. } => Answers::One,
        IpcRequest::Restart { .. } => Answers::One,
        IpcRequest::Logs { follow, .. } => if *follow {
            Answers::UntilClosed
        } else {
            Answers::Nothing
        },
        IpcRequest::History { .. } => Answers::UntilClosed,
    }
}

} // verus!
