//! The control protocol as the supervisor serves it: what each request does
//! to the supervisor, what is answered, and whether the connection goes on.
//!
//! Reading lines, decoding them, encoding the answers and writing them is the
//! caller's part; this module decides.

use crate::graph::{ints, texts};
use crate::ipc::{response_models, IpcRequest, IpcResponse, ResponseModel};
use crate::logs::{
    free_slot, last_n, lines, matching, subscribed, Delivery, DeliveryModel, LogLine,
};
use crate::supervisor::{
    after_exits, after_restart, after_stop, ends_soon, law_exits_stop_the_listed, restart_plan,
    reverse_ordered, stop_outcome, ExitOutcome, RestartPlan, ServiceRuntimeState, ServiceStatus,
    StatusLine, StopOutcome, Supervisor,
};
use crate::text::same_text;
use vstd::prelude::*;
use vstd::string::StrSliceExecFns;
use vstd::string::StringExecFns;

verus! {

/// What is sent where a response cannot be encoded.
pub open spec fn fallback_payload() -> Seq<char> {
    "{\"Error\":{\"msg\":\"internal serialize error\"}}"@
}

/// The line that goes out for a response: its encoding, or the fallback
/// payload where there is none, closed by a line break.
pub open spec fn wire_line(json: Option<Seq<char>>) -> Seq<char> {
    match json {
        Some(text) => text.push('\n'),
        None => fallback_payload().push('\n'),
    }
}

/// The text of an optional string.
pub open spec fn text_of(s: Option<String>) -> Option<Seq<char>> {
    match s {
        Some(s) => Some(s@),
        None => None,
    }
}

/// The bytes that go out for a response, given its encoding where it has one.
pub fn encode_line(json: Option<String>) -> (bytes: Vec<u8>)
    ensures
        bytes@ == vstd::utf8::encode_utf8(wire_line(text_of(json))),
{
    let mut text = match json {
        Some(text) => text,
        None => "{\"Error\":{\"msg\":\"internal serialize error\"}}".to_owned(),
    };
    let ghost before = text@;
    text.append("\n");
    proof {
        reveal_strlit("\n");
        assert(text@ =~= before.push('\n'));
    }
    text.as_str().as_bytes_vec()
}

/// The answer to a line that is no request.
pub fn bad_request(detail: &str) -> (r: IpcResponse)
    ensures
        r@ == (ResponseModel::Error { msg: "bad request: "@ + detail@ }),
{
    IpcResponse::Error { msg: "bad request: ".to_owned().concat(detail) }
}

/// What is said of a service that does not exist.
pub open spec fn not_found_message(service: Seq<char>) -> Seq<char> {
    "service not found: "@ + service
}

/// What is said of a service that does not exist.
pub fn not_found_text(service: &str) -> (msg: String)
    ensures
        msg@ == not_found_message(service@),
{
    "service not found: ".to_owned().concat(service)
}

/// The answer to a request that names a service which does not exist.
pub fn not_found(service: &str) -> (r: IpcResponse)
    ensures
        r@ == (ResponseModel::Error { msg: not_found_message(service@) }),
{
    IpcResponse::Error { msg: not_found_text(service) }
}

/// What the connection does once a request was answered.
pub enum Next {
    /// Wait for the next request.
    KeepOpen,
    /// Close the connection.
    Close,
    /// Stream log lines from this subscription until the client is gone or
    /// the subscription is closed.
    Stream { subscription: usize, service: Option<String> },
}

/// What `Next` holds.
pub enum NextModel {
    KeepOpen,
    Close,
    Stream { subscription: int, service: Option<Seq<char>> },
}

impl View for Next {
    type V = NextModel;

    open spec fn view(&self) -> NextModel {
        match self {
            Next::KeepOpen => NextModel::KeepOpen,
            Next::Close => NextModel::Close,
            Next::Stream { subscription, service } => NextModel::Stream {
                subscription: *subscription as int,
                service: text_of(*service),
            },
        }
    }
}

/// What a request leads to.
pub struct Reply {
    /// The responses to write, in order.
    pub responses: Vec<IpcResponse>,
    /// The services whose processes are to be terminated, in order.
    pub terminate: Vec<usize>,
    /// Whether the responses are written only once the exit of every
    /// service in `terminate` was taken in. A stop is answered so: when the
    /// answer arrives, the services it ended are stopped.
    pub after_exits: bool,
    pub next: Next,
}

/// The records after each of the `wanted` services was asked to stop, first
/// to last. A name that no service carries is passed over.
pub open spec fn stopped_named(
    names: Seq<Seq<char>>,
    states: Seq<ServiceRuntimeState>,
    wanted: Seq<Seq<char>>,
) -> Seq<ServiceRuntimeState>
    decreases wanted.len(),
{
    if wanted.len() == 0 {
        states
    } else {
        let before = stopped_named(names, states, wanted.drop_last());
        if names.contains(wanted.last()) {
            let i = names.index_of(wanted.last());
            before.update(i, after_stop(before[i]))
        } else {
            before
        }
    }
}

/// The services whose processes are to be terminated once each of the
/// `wanted` services was asked to stop: those that held a process when their
/// turn came.
pub open spec fn terminated_named(
    names: Seq<Seq<char>>,
    states: Seq<ServiceRuntimeState>,
    wanted: Seq<Seq<char>>,
) -> Seq<int>
    decreases wanted.len(),
{
    if wanted.len() == 0 {
        Seq::empty()
    } else {
        let before = stopped_named(names, states, wanted.drop_last());
        let listed = terminated_named(names, states, wanted.drop_last());
        if names.contains(wanted.last()) && stop_outcome(before[names.index_of(wanted.last())])
            == StopOutcome::Terminate {
            listed.push(names.index_of(wanted.last()))
        } else {
            listed
        }
    }
}

/// The position of the first of the `wanted` names that no service carries.
pub open spec fn first_missing(names: Seq<Seq<char>>, wanted: Seq<Seq<char>>) -> Option<int>
    decreases wanted.len(),
{
    if wanted.len() == 0 {
        None
    } else {
        match first_missing(names, wanted.drop_last()) {
            Some(k) => Some(k),
            None => if names.contains(wanted.last()) {
                None
            } else {
                Some(wanted.len() - 1)
            },
        }
    }
}

/// What a stop is answered with: `Done` where every name is that of a
/// service, else the error that the first other name is not found.
pub open spec fn stop_answer(names: Seq<Seq<char>>, wanted: Seq<Seq<char>>) -> ResponseModel {
    match first_missing(names, wanted) {
        Some(k) => ResponseModel::Error { msg: not_found_message(wanted[k]) },
        None => ResponseModel::Done,
    }
}

/// The first missing name is one of the wanted names and is no service's;
/// every name before it is a service's.
pub proof fn lemma_first_missing(names: Seq<Seq<char>>, wanted: Seq<Seq<char>>)
    ensures
        match first_missing(names, wanted) {
            Some(k) => 0 <= k < wanted.len() && !names.contains(wanted[k]) && forall|j: int|
                0 <= j < k ==> names.contains(#[trigger] wanted[j]),
            None => forall|j: int| 0 <= j < wanted.len() ==> names.contains(#[trigger] wanted[j]),
        },
    decreases wanted.len(),
{
    if wanted.len() > 0 {
        lemma_first_missing(names, wanted.drop_last());
        let front = wanted.drop_last();
        match first_missing(names, front) {
            Some(k) => {
                assert(front[k] == wanted[k]);
                assert forall|j: int| 0 <= j < k implies names.contains(#[trigger] wanted[j]) by {
                    assert(front[j] == wanted[j]);
                }
            },
            None => {
                assert forall|j: int| 0 <= j < wanted.len() - 1 implies names.contains(
                    #[trigger] wanted[j],
                ) by {
                    assert(front[j] == wanted[j]);
                }
            },
        }
    }
}

/// The log lines as responses.
pub open spec fn as_log_lines(entries: Seq<LogLine>) -> Seq<ResponseModel> {
    Seq::new(
        entries.len(),
        |i: int| ResponseModel::LogLine { service: entries[i].service, line: entries[i].line },
    )
}

/// The snapshot that a supervisor gives.
pub open spec fn snapshot(sup: &Supervisor) -> Seq<StatusLine> {
    Seq::new(
        sup.states@.len(),
        |i: int|
            StatusLine {
                name: sup.graph@.names[i],
                status: sup.states@[i].status,
                pid: sup.states@[i].pid,
                port: sup.states@[i].port,
                restarts: sup.states@[i].restarts,
                last_exit: sup.states@[i].last_exit,
            },
    )
}

/// What serving a stop request comes to. With no service named, every
/// service is asked to stop, dependents first. Otherwise the named ones are,
/// in the order of the request, and a name that no service carries is
/// passed over but answered with an error. The processes to end are listed,
/// each of them asked to stop, and the answer waits for their exits.
pub open spec fn stop_served(
    before: Supervisor,
    after: Supervisor,
    services: Seq<Seq<char>>,
    reply: Reply,
) -> bool {
    &&& after.same_setup(&before)
    &&& after.hub == before.hub
    &&& after.states@.len() == before.states@.len()
    &&& response_models(reply.responses@) == seq![stop_answer(before.graph@.names, services)]
    &&& reply.next@ == NextModel::KeepOpen
    &&& reply.after_exits
    &&& forall|a: int|
        0 <= a < reply.terminate@.len() ==> (#[trigger] reply.terminate@[a]) < after.states@.len()
            && ends_soon(after.states@[reply.terminate@[a] as int])
    &&& services.len() == 0 ==> {
        &&& forall|i: int|
            0 <= i < before.states@.len() ==> #[trigger] after.states@[i] == after_stop(
                before.states@[i],
            )
        &&& reverse_ordered(ints(before.order@), ints(reply.terminate@))
        &&& forall|i: int|
            0 <= i < before.states@.len() ==> (ints(reply.terminate@).contains(i) <==> stop_outcome(
                before.states@[i],
            ) == StopOutcome::Terminate)
    }
    &&& services.len() > 0 ==> {
        &&& after.states@ == stopped_named(before.graph@.names, before.states@, services)
        &&& ints(reply.terminate@) == terminated_named(
            before.graph@.names,
            before.states@,
            services,
        )
    }
}

/// The exits of the listed services, each with its outcome.
pub open spec fn exits_of(list: Seq<usize>, outcomes: Seq<ExitOutcome>) -> Seq<(int, ExitOutcome)> {
    Seq::new(list.len(), |a: int| (list[a] as int, outcomes[a]))
}

/// When a stop is answered, the services that it ended are stopped: once
/// the exit of each service in `terminate` was taken in, whatever the
/// outcome, each of them is `Stopped`, and no other record has changed.
pub proof fn law_answered_stop_leaves_stopped(
    before: Supervisor,
    after: Supervisor,
    services: Seq<Seq<char>>,
    reply: Reply,
    outcomes: Seq<ExitOutcome>,
)
    requires
        stop_served(before, after, services, reply),
        outcomes.len() == reply.terminate@.len(),
    ensures
        forall|a: int|
            0 <= a < reply.terminate@.len() ==> after_exits(
                after.states@,
                exits_of(reply.terminate@, outcomes),
                after.max_restarts,
            )[(#[trigger] reply.terminate@[a]) as int].status == ServiceStatus::Stopped,
        forall|i: int|
            0 <= i < after.states@.len() && !ints(reply.terminate@).contains(i) ==> after_exits(
                after.states@,
                exits_of(reply.terminate@, outcomes),
                after.max_restarts,
            )[i] == after.states@[i],
{
    let exits = exits_of(reply.terminate@, outcomes);
    assert forall|a: int| 0 <= a < exits.len() implies 0 <= (#[trigger] exits[a]).0
        < after.states@.len() && ends_soon(after.states@[exits[a].0]) by {
        assert(reply.terminate@[a] < after.states@.len());
    }
    law_exits_stop_the_listed(after.states@, exits, after.max_restarts);
    let out = after_exits(after.states@, exits, after.max_restarts);
    assert forall|a: int| 0 <= a < reply.terminate@.len() implies out[(
    #[trigger] reply.terminate@[a]) as int].status == ServiceStatus::Stopped by {
        assert(exits[a].0 == reply.terminate@[a]);
    }
    assert forall|i: int|
        0 <= i < after.states@.len() && !ints(reply.terminate@).contains(i) implies out[i]
        == after.states@[i] by {
        assert forall|a: int| 0 <= a < exits.len() implies (#[trigger] exits[a]).0 != i by {
            assert(ints(reply.terminate@)[a] == exits[a].0);
        }
    }
}

/// What serving a restart request comes to. A known service is restarted
/// and the answer is `Done`; its process, where it has one, is to be
/// terminated. An unknown name is answered with an error that says so, and
/// nothing changes. No other service is touched.
pub open spec fn restart_served(
    before: Supervisor,
    after: Supervisor,
    service: Seq<char>,
    reply: Reply,
) -> bool {
    &&& reply.next@ == NextModel::KeepOpen
    &&& !reply.after_exits
    &&& if before.graph@.names.contains(service) {
        let i = before.graph@.names.index_of(service);
        &&& response_models(reply.responses@) == seq![ResponseModel::Done]
        &&& after.changed_one(&before, i, after_restart(before.states@[i]))
        &&& ints(reply.terminate@) == if restart_plan(before.states@[i]) == RestartPlan::StopFirst {
            seq![i]
        } else {
            Seq::<int>::empty()
        }
    } else {
        &&& response_models(reply.responses@) == seq![
            ResponseModel::Error { msg: not_found_message(service) },
        ]
        &&& after == before
        &&& reply.terminate@.len() == 0
    }
}

/// What serving a logs request comes to. A request that follows takes out
/// a subscription, and the connection streams from it. One that does not
/// follow ends at once: nothing is sent, nothing changes, and the connection
/// waits for the next request.
pub open spec fn logs_served(
    before: Supervisor,
    after: Supervisor,
    service: Option<Seq<char>>,
    follow: bool,
    reply: Reply,
) -> bool {
    &&& reply.responses@.len() == 0
    &&& reply.terminate@.len() == 0
    &&& !reply.after_exits
    &&& if follow {
        &&& after.same_setup(&before)
        &&& after.states == before.states
        &&& after.hub@ == subscribed(before.hub@)
        &&& reply.next@ == (NextModel::Stream {
            subscription: free_slot(before.hub@.subscribers),
            service,
        })
    } else {
        &&& after == before
        &&& reply.next@ == NextModel::KeepOpen
    }
}

/// Serves a status request: the snapshot, and the connection stays open.
pub fn serve_status(sup: &Supervisor) -> (reply: Reply)
    requires
        sup.wf(),
    ensures
        response_models(reply.responses@) == seq![ResponseModel::Status { rows: snapshot(sup) }],
        reply.terminate@.len() == 0,
        !reply.after_exits,
        reply.next@ == NextModel::KeepOpen,
{
    let rows = sup.status_rows();
    proof {
        assert(crate::ipc::status_lines(rows@) =~= snapshot(sup));
    }
    let mut responses: Vec<IpcResponse> = Vec::new();
    responses.push(IpcResponse::Status { rows });
    assert(response_models(responses@) =~= seq![ResponseModel::Status { rows: snapshot(sup) }]);
    Reply { responses, terminate: Vec::new(), after_exits: false, next: Next::KeepOpen }
}

/// Serves a stop request.
pub fn serve_stop(sup: &mut Supervisor, services: &Vec<String>) -> (reply: Reply)
    requires
        old(sup).wf(),
    ensures
        final(sup).wf(),
        stop_served(*old(sup), *final(sup), texts(services@), reply),
{
    let mut terminate: Vec<usize> = Vec::new();
    let mut missing: Option<usize> = None;
    let ghost names = sup.graph@.names;
    let ghost wanted = texts(services@);
    if services.len() == 0 {
        terminate = sup.stop_all();
        proof {
            assert forall|a: int| 0 <= a < terminate@.len() implies (#[trigger] terminate@[a])
                < sup.states@.len() && ends_soon(sup.states@[terminate@[a] as int]) by {
                let i = terminate@[a] as int;
                assert(ints(terminate@)[a] == i);
                assert(ints(terminate@).contains(i));
                assert(sup.states@[i] == after_stop(old(sup).states@[i]));
            }
        }
    } else {
        let mut k: usize = 0;
        while k < services.len()
            invariant
                sup.wf(),
                sup.same_setup(old(sup)),
                sup.hub == old(sup).hub,
                names == old(sup).graph@.names,
                wanted == texts(services@),
                k <= services@.len(),
                sup.states@.len() == old(sup).states@.len(),
                sup.states@ == stopped_named(names, old(sup).states@, wanted.take(k as int)),
                ints(terminate@) == terminated_named(names, old(sup).states@, wanted.take(k as int)),
                forall|a: int|
                    0 <= a < terminate@.len() ==> (#[trigger] terminate@[a]) < sup.states@.len()
                        && ends_soon(sup.states@[terminate@[a] as int]),
                match missing {
                    Some(m) => m < k && first_missing(names, wanted.take(k as int)) == Some(
                        m as int,
                    ),
                    None => first_missing(names, wanted.take(k as int)) is None,
                },
            decreases services@.len() - k,
        {
            let ghost before = sup.states@;
            let ghost listed = ints(terminate@);
            proof {
                assert(wanted.take(k + 1).drop_last() =~= wanted.take(k as int));
                assert(wanted.take(k + 1).last() == services@[k as int]@);
            }
            match sup.service_id(services[k].as_str()) {
                Some(i) => {
                    proof {
                        names.index_of_first_ensures(services@[k as int]@);
                        assert(names.contains(services@[k as int]@));
                        assert(names.index_of(services@[k as int]@) == i);
                    }
                    let outcome = sup.stop_at(i);
                    if outcome == StopOutcome::Terminate {
                        terminate.push(i);
                        assert(ints(terminate@) =~= listed.push(i as int));
                    }
                    proof {
                        assert forall|a: int| 0 <= a < terminate@.len() implies (
                        #[trigger] terminate@[a]) < sup.states@.len() && ends_soon(
                            sup.states@[terminate@[a] as int],
                        ) by {
                            if a < listed.len() {
                                assert(ends_soon(before[terminate@[a] as int]));
                            }
                        }
                    }
                },
                None => {
                    if missing.is_none() {
                        missing = Some(k);
                    }
                },
            }
            k += 1;
        }
        assert(wanted.take(services@.len() as int) =~= wanted);
    }
    let mut responses: Vec<IpcResponse> = Vec::new();
    match missing {
        Some(m) => {
            assert(wanted[m as int] == services@[m as int]@);
            responses.push(not_found(services[m].as_str()));
        },
        None => {
            responses.push(IpcResponse::Done);
        },
    }
    assert(response_models(responses@) =~= seq![stop_answer(names, wanted)]);
    Reply { responses, terminate, after_exits: true, next: Next::KeepOpen }
}

/// Serves a restart request.
pub fn serve_restart(sup: &mut Supervisor, service: &str) -> (reply: Reply)
    requires
        old(sup).wf(),
    ensures
        final(sup).wf(),
        restart_served(*old(sup), *final(sup), service@, reply),
{
    let mut responses: Vec<IpcResponse> = Vec::new();
    let mut terminate: Vec<usize> = Vec::new();
    match sup.service_id(service) {
        Some(i) => {
            proof {
                old(sup).graph@.names.index_of_first_ensures(service@);
                assert(old(sup).graph@.names.contains(service@));
                assert(old(sup).graph@.names.index_of(service@) == i);
            }
            let plan = sup.restart_at(i);
            if plan == RestartPlan::StopFirst {
                terminate.push(i);
                assert(ints(terminate@) =~= seq![i as int]);
            } else {
                assert(ints(terminate@) =~= Seq::<int>::empty());
            }
            responses.push(IpcResponse::Done);
            assert(response_models(responses@) =~= seq![ResponseModel::Done]);
        },
        None => {
            responses.push(not_found(service));
            assert(response_models(responses@) =~= seq![
                ResponseModel::Error { msg: not_found_message(service@) },
            ]);
        },
    }
    Reply { responses, terminate, after_exits: false, next: Next::KeepOpen }
}

/// Serves a history request: up to `limit` of the most recent retained lines,
/// of one service where one is named, oldest first; then the connection
/// closes.
pub fn serve_history(sup: &Supervisor, service: Option<&str>, limit: usize) -> (reply: Reply)
    requires
        sup.wf(),
    ensures
        response_models(reply.responses@) == as_log_lines(
            last_n(matching(sup.hub@.history, crate::logs::name_of(service)), limit as nat),
        ),
        reply.responses@.len() <= limit,
        reply.terminate@.len() == 0,
        !reply.after_exits,
        reply.next@ == NextModel::Close,
{
    let recent = sup.log_history(service, limit);
    let mut responses: Vec<IpcResponse> = Vec::new();
    let mut i: usize = 0;
    while i < recent.len()
        invariant
            i <= recent@.len(),
            responses@.len() == i,
            forall|a: int|
                0 <= a < i ==> (#[trigger] responses@[a])@ == (ResponseModel::LogLine {
                    service: recent@[a]@.service,
                    line: recent@[a]@.line,
                }),
        decreases recent@.len() - i,
    {
        let entry = recent[i].copy();
        responses.push(IpcResponse::LogLine { service: entry.service, line: entry.line });
        i += 1;
    }
    assert(response_models(responses@) =~= as_log_lines(lines(recent@)));
    Reply { responses, terminate: Vec::new(), after_exits: false, next: Next::Close }
}

/// Serves a logs request.
pub fn serve_logs(sup: &mut Supervisor, service: Option<String>, follow: bool) -> (reply: Reply)
    requires
        old(sup).wf(),
    ensures
        final(sup).wf(),
        logs_served(*old(sup), *final(sup), text_of(service), follow, reply),
{
    if follow {
        let subscription = sup.subscribe_logs();
        Reply {
            responses: Vec::new(),
            terminate: Vec::new(),
            after_exits: false,
            next: Next::Stream { subscription, service },
        }
    } else {
        Reply {
            responses: Vec::new(),
            terminate: Vec::new(),
            after_exits: false,
            next: Next::KeepOpen,
        }
    }
}

/// Serves one line of a connection: a request, or the reason why the line is
/// none. A line that is no request is answered with an error, and the
/// connection stays open for the next one.
pub fn serve_line(sup: &mut Supervisor, line: Result<IpcRequest, String>) -> (reply: Reply)
    requires
        old(sup).wf(),
    ensures
        final(sup).wf(),
        final(sup).same_setup(old(sup)),
        match line {
            Err(detail) => {
                &&& *final(sup) == *old(sup)
                &&& response_models(reply.responses@) == seq![
                    ResponseModel::Error { msg: "bad request: "@ + detail@ },
                ]
                &&& reply.terminate@.len() == 0
                &&& !reply.after_exits
                &&& reply.next@ == NextModel::KeepOpen
            },
            Ok(IpcRequest::Status) => {
                &&& *final(sup) == *old(sup)
                &&& response_models(reply.responses@) == seq![
                    ResponseModel::Status { rows: snapshot(old(sup)) },
                ]
                &&& reply.terminate@.len() == 0
                &&& !reply.after_exits
                &&& reply.next@ == NextModel::KeepOpen
            },
            Ok(IpcRequest::Stop { services }) => stop_served(
                *old(sup),
                *final(sup),
                texts(services@),
                reply,
            ),
            Ok(IpcRequest::Restart { service }) => restart_served(
                *old(sup),
                *final(sup),
                service@,
                reply,
            ),
            Ok(IpcRequest::Logs { service, follow }) => logs_served(
                *old(sup),
                *final(sup),
                text_of(service),
                follow,
                reply,
            ),
            Ok(IpcRequest::History { service, lines }) => {
                &&& *final(sup) == *old(sup)
                &&& response_models(reply.responses@) == as_log_lines(
                    last_n(matching(old(sup).hub@.history, text_of(service)), lines as nat),
                )
                &&& reply.terminate@.len() == 0
                &&& !reply.after_exits
                &&& reply.next@ == NextModel::Close
            },
        },
{
    match line {
        Err(detail) => {
            let mut responses: Vec<IpcResponse> = Vec::new();
            responses.push(bad_request(detail.as_str()));
            assert(response_models(responses@) =~= seq![
                ResponseModel::Error { msg: "bad request: "@ + detail@ },
            ]);
            Reply { responses, terminate: Vec::new(), after_exits: false, next: Next::KeepOpen }
        },
        Ok(IpcRequest::Status) => serve_status(sup),
        Ok(IpcRequest::Stop { services }) => serve_stop(sup, &services),
        Ok(IpcRequest::Restart { service }) => serve_restart(sup, service.as_str()),
        Ok(IpcRequest::Logs { service, follow }) => serve_logs(sup, service, follow),
        Ok(IpcRequest::History { service, lines }) => match service {
            Some(name) => serve_history(sup, Some(name.as_str()), lines),
            None => serve_history(sup, None, lines),
        },
    }
}

/// What a log stream does with one delivery.
pub struct StreamStep {
    /// The response to write, where there is one. Where writing it fails, the
    /// stream ends.
    pub send: Option<IpcResponse>,
    /// Whether the stream goes on after that.
    pub go_on: bool,
}

/// Whether a stream for `filter` passes on a line of `service`.
pub open spec fn passes(filter: Option<Seq<char>>, service: Seq<char>) -> bool {
    match filter {
        None => true,
        Some(name) => name == service,
    }
}

/// Decides what a log stream does with what its subscription delivered. A
/// line is sent where it passes the filter. A loss is passed over. When
/// nothing waits the stream goes on; when the subscription is closed it
/// ends.
pub fn stream_step(filter: Option<&str>, delivery: Delivery) -> (step: StreamStep)
    ensures
        match delivery@ {
            DeliveryModel::Entry(e) => {
                &&& step.go_on
                &&& match step.send {
                    Some(r) => passes(crate::logs::name_of(filter), e.service) && r@ == (
                    ResponseModel::LogLine { service: e.service, line: e.line }),
                    None => !passes(crate::logs::name_of(filter), e.service),
                }
            },
            DeliveryModel::Lagged(_) => step.send is None && step.go_on,
            DeliveryModel::Empty => step.send is None && step.go_on,
            DeliveryModel::Closed => step.send is None && !step.go_on,
        },
{
    match delivery {
        Delivery::Entry(entry) => {
            let wanted = match filter {
                None => true,
                Some(name) => same_text(name, entry.service.as_str()),
            };
            if wanted {
                StreamStep {
                    send: Some(IpcResponse::LogLine { service: entry.service, line: entry.line }),
                    go_on: true,
                }
            } else {
                StreamStep { send: None, go_on: true }
            }
        },
        Delivery::Lagged(_) => StreamStep { send: None, go_on: true },
        Delivery::Empty => StreamStep { send: None, go_on: true },
        Delivery::Closed => StreamStep { send: None, go_on: false },
    }
}

} // verus!
