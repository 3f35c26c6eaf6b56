//! Calls to a peer, and their answers.

use std::collections::HashMap;
use std::sync::Arc;

use vstd::prelude::*;
use vstd::utf8::{decode_utf8, encode_utf8, valid_utf8};

use crate::mesh::node::io::raw_sent;
use crate::mesh::node::Node;
use crate::protocol::errors::{MlinkError, Result};
use crate::protocol::types::MessageType;
use crate::strmap::StrMap;

verus! {

pub const RPC_STATUS_OK: u8 = 0;

pub const RPC_STATUS_ERROR: u8 = 1;

#[derive(Debug, Clone, PartialEq, Eq)]
pub struct RpcRequest {
    pub request_id: u16,
    pub method: String,
    pub data: Vec<u8>,
}

#[derive(Debug, Clone, PartialEq, Eq)]
pub struct RpcResponse {
    pub request_id: u16,
    pub status: u8,
    pub data: Vec<u8>,
}

/// The methods that this node offers, each with its handler.
pub struct RpcRegistry<H: ?Sized> {
    handlers: StrMap<Arc<H>>,
}

impl<H: ?Sized> View for RpcRegistry<H> {
    type V = Map<Seq<char>, Arc<H>>;

    closed spec fn view(&self) -> Map<Seq<char>, Arc<H>> {
        self.handlers@
    }
}

impl<H: ?Sized> RpcRegistry<H> {
    pub closed spec fn wf(&self) -> bool {
        self.handlers.wf()
    }

    pub fn new() -> (r: Self)
        ensures
            r.wf(),
            r@ == Map::<Seq<char>, Arc<H>>::empty(),
    {
        RpcRegistry { handlers: StrMap::new() }
    }

    /// Offers a method, in place of the one of that name.
    pub fn register(&mut self, method: String, handler: Arc<H>)
        requires
            old(self).wf(),
        ensures
            final(self).wf(),
            final(self)@ == old(self)@.insert(method@, handler),
    {
        let _ = self.handlers.insert(method, handler);
    }

    /// Withdraws a method, and says whether it was there.
    pub fn unregister(&mut self, method: &str) -> (r: bool)
        requires
            old(self).wf(),
        ensures
            final(self).wf(),
            final(self)@ == old(self)@.remove(method@),
            r == old(self)@.dom().contains(method@),
    {
        self.handlers.remove(method).is_some()
    }

    pub fn has(&self, method: &str) -> (r: bool)
        requires
            self.wf(),
        ensures
            r == self@.dom().contains(method@),
    {
        self.handlers.contains(method)
    }

    /// The handler that is to be called for a method.
    pub fn handle_request(&self, method: &str) -> (r: Result<Arc<H>>)
        requires
            self.wf(),
        ensures
            if self@.dom().contains(method@) {
                r matches Ok(h) && h == self@[method@]
            } else {
                r matches Err(MlinkError::UnknownMethod(m)) && m@ == method@
            },
    {
        match self.handlers.get(method) {
            Some(h) => Ok(h.clone()),
            None => Err(MlinkError::UnknownMethod(method.to_owned())),
        }
    }
}

impl<H: ?Sized> Default for RpcRegistry<H> {
    fn default() -> (r: Self)
        ensures
            r.wf(),
            r@ == Map::<Seq<char>, Arc<H>>::empty(),
    {
        Self::new()
    }
}

/// The calls that wait for an answer, each with whoever waits for it.
#[derive(Debug)]
pub struct PendingRequests<W> {
    next_id: u16,
    waiters: HashMap<u16, W>,
}

/// The id after `id`; the ids wrap at 2^16.
pub open spec fn id_after(id: u16) -> u16 {
    if id == u16::MAX {
        0
    } else {
        (id + 1) as u16
    }
}

/// The ids of calls follow one another, and start again after the last one.
pub proof fn ids_follow_one_another(id: u16)
    ensures
        id_after(id) == (id + 1) % 0x1_0000,
{
}

/// How a call ended.
pub enum RpcEnd {
    Replied(RpcResponse),
    /// Nobody will answer any more.
    Closed,
    TimedOut,
}

/// Whether opening a call comes to this: it has the next id, and `waiter` waits for its answer.
pub open spec fn call_opened<W>(
    before: Map<u16, W>,
    upcoming: u16,
    after: Map<u16, W>,
    next: u16,
    waiter: W,
    req: RpcRequest,
) -> bool {
    &&& req.request_id == upcoming
    &&& next == id_after(upcoming)
    &&& after == before.insert(upcoming, waiter)
}

/// Whether an answer comes to this: whoever waited for it gets it, and waits no longer.
pub open spec fn answer_found<W>(
    before: Map<u16, W>,
    after: Map<u16, W>,
    response: RpcResponse,
    r: Option<(W, RpcResponse)>,
) -> bool {
    &&& after == before.remove(response.request_id)
    &&& r == if before.dom().contains(response.request_id) {
        Some((before[response.request_id], response))
    } else {
        None
    }
}

/// The answer to a call reaches whoever opened it, whatever other calls are open, and once: a second
/// answer finds nobody. All others go on waiting.
pub proof fn answer_reaches_its_caller<W>(
    start: Map<u16, W>,
    id: u16,
    mid: Map<u16, W>,
    next: u16,
    open: Map<u16, W>,
    later: u16,
    callers: (W, W),
    requests: (RpcRequest, RpcRequest),
    answer: RpcResponse,
    answered: Map<u16, W>,
    r: Option<(W, RpcResponse)>,
    end: Map<u16, W>,
    again: Option<(W, RpcResponse)>,
)
    requires
        call_opened(start, id, mid, next, callers.0, requests.0),
        call_opened(mid, next, open, later, callers.1, requests.1),
        answer.request_id == requests.0.request_id,
        answer_found(open, answered, answer, r),
        answer_found(answered, end, answer, again),
    ensures
        requests.0.request_id == id,
        requests.1.request_id == (id + 1) % 0x1_0000,
        r == Some((callers.0, answer)),
        again is None,
        answered.dom().contains(requests.1.request_id),
        answered[requests.1.request_id] == callers.1,
        forall|other: u16|
            other != requests.0.request_id && other != requests.1.request_id ==> #[trigger]
                answered.dom().contains(other) == start.dom().contains(other) && (
            start.dom().contains(other) ==> answered[other] == start[other]),
{
}

impl<W> PendingRequests<W> {
    /// Who waits for which answer.
    pub closed spec fn waiting(&self) -> Map<u16, W> {
        self.waiters@
    }

    /// The id of the next call.
    pub closed spec fn upcoming(&self) -> u16 {
        self.next_id
    }

    pub fn new() -> (p: Self)
        ensures
            p.waiting() == Map::<u16, W>::empty(),
            p.upcoming() == 0,
    {
        PendingRequests { next_id: 0, waiters: HashMap::new() }
    }

    /// Hands out an id.
    pub fn next_id(&mut self) -> (id: u16)
        ensures
            id == old(self).upcoming(),
            final(self).upcoming() == id_after(id),
            final(self).waiting() == old(self).waiting(),
    {
        let id: u16 = self.next_id;
        self.next_id = self.next_id.wrapping_add(1);
        id
    }

    /// Lets `waiter` wait for the answer to call `id`.
    pub fn register(&mut self, id: u16, waiter: W)
        ensures
            final(self).waiting() == old(self).waiting().insert(id, waiter),
            final(self).upcoming() == old(self).upcoming(),
    {
        broadcast use vstd::std_specs::hash::group_hash_axioms;

        let _ = self.waiters.insert(id, waiter);
    }

    /// Finds who waits for an answer; an answer that nobody waits for is dropped.
    pub fn complete(&mut self, response: RpcResponse) -> (r: Option<(W, RpcResponse)>)
        ensures
            final(self).waiting() == old(self).waiting().remove(response.request_id),
            final(self).upcoming() == old(self).upcoming(),
            match r {
                Some((w, resp)) => old(self).waiting().dom().contains(response.request_id) && w
                    == old(self).waiting()[response.request_id] && resp == response,
                None => !old(self).waiting().dom().contains(response.request_id),
            },
            answer_found(old(self).waiting(), final(self).waiting(), response, r),
    {
        broadcast use vstd::std_specs::hash::group_hash_axioms;

        match self.waiters.remove(&response.request_id) {
            Some(w) => Some((w, response)),
            None => {
                assert(self.waiters@ =~= old(self).waiters@.remove(response.request_id));
                None
            },
        }
    }

    /// Gives up on a call, and says whether anybody waited for it.
    pub fn cancel(&mut self, id: u16) -> (r: bool)
        ensures
            final(self).waiting() == old(self).waiting().remove(id),
            final(self).upcoming() == old(self).upcoming(),
            r == old(self).waiting().dom().contains(id),
    {
        broadcast use vstd::std_specs::hash::group_hash_axioms;

        let r = self.waiters.remove(&id).is_some();
        assert(self.waiters@ =~= old(self).waiters@.remove(id));
        r
    }

    pub fn pending_count(&self) -> (n: usize)
        ensures
            n == self.waiting().dom().len(),
    {
        broadcast use vstd::std_specs::hash::group_hash_axioms;

        self.waiters.len()
    }

    /// Opens a call: it gets an id, and `waiter` waits for its answer.
    pub fn open_call(&mut self, method: &str, data: &[u8], waiter: W) -> (req: RpcRequest)
        ensures
            req.request_id == old(self).upcoming(),
            req.method@ == method@,
            req.data@ == data@,
            final(self).upcoming() == id_after(old(self).upcoming()),
            final(self).waiting() == old(self).waiting().insert(old(self).upcoming(), waiter),
            call_opened(
                old(self).waiting(),
                old(self).upcoming(),
                final(self).waiting(),
                final(self).upcoming(),
                waiter,
                req,
            ),
    {
        let id: u16 = self.next_id();
        self.register(id, waiter);
        RpcRequest {
            request_id: id,
            method: method.to_owned(),
            data: vstd::slice::slice_to_vec(data),
        }
    }
}

impl<W> Default for PendingRequests<W> {
    fn default() -> (p: Self)
        ensures
            p.waiting() == Map::<u16, W>::empty(),
            p.upcoming() == 0,
    {
        Self::new()
    }
}

/// `String::from_utf8`: the text of bytes that are valid UTF-8, and nothing otherwise.
#[verifier::external_body]
fn utf8_text(bytes: Vec<u8>) -> (r: Option<String>)
    ensures
        match r {
            Some(s) => valid_utf8(bytes@) && s@ == decode_utf8(bytes@),
            None => !valid_utf8(bytes@),
        },
{
    String::from_utf8(bytes).ok()
}

/// The message of a call that has failed.
pub open spec fn failure_text(data: Seq<u8>) -> Seq<char> {
    if valid_utf8(data) {
        decode_utf8(data)
    } else {
        "rpc error"@
    }
}

/// Whether `r` is what a call returns for this answer.
pub open spec fn answers(r: Result<Vec<u8>>, resp: RpcResponse) -> bool {
    if resp.status == RPC_STATUS_OK {
        r matches Ok(d) && d@ == resp.data@
    } else {
        r matches Err(MlinkError::HandlerError(m)) && m@ == failure_text(resp.data@)
    }
}

/// What a call returns for an answer.
pub fn response_result(resp: RpcResponse) -> (r: Result<Vec<u8>>)
    ensures
        answers(r, resp),
{
    if resp.status == RPC_STATUS_OK {
        Ok(resp.data)
    } else {
        let m = match utf8_text(resp.data) {
            Some(s) => s,
            None => "rpc error".to_owned(),
        };
        Err(MlinkError::HandlerError(m))
    }
}

/// Closes call `id`, and says what it has returned. Only a call that ran out of time still has
/// somebody waiting for it.
pub fn rpc_request<W>(pending: &mut PendingRequests<W>, id: u16, end: RpcEnd) -> (r: Result<
    Vec<u8>,
>)
    ensures
        final(pending).upcoming() == old(pending).upcoming(),
        match end {
            RpcEnd::Replied(resp) => answers(r, resp) && final(pending).waiting() == old(
                pending,
            ).waiting(),
            RpcEnd::Closed => r matches Err(MlinkError::HandlerError(m)) && m@
                == "response channel closed"@ && final(pending).waiting() == old(pending).waiting(),
            RpcEnd::TimedOut => r matches Err(MlinkError::Timeout) && final(pending).waiting()
                == old(pending).waiting().remove(id),
        },
{
    match end {
        RpcEnd::Replied(resp) => response_result(resp),
        RpcEnd::Closed => Err(MlinkError::HandlerError("response channel closed".to_owned())),
        RpcEnd::TimedOut => {
            let _ = pending.cancel(id);
            Err(MlinkError::Timeout)
        },
    }
}

/// Makes the frame of a call. `payload` is the encoded request.
pub fn send_request<C: ?Sized>(node: &mut Node<C>, peer_id: &str, payload: &[u8]) -> (r: Result<
    (Arc<C>, Vec<u8>),
>)
    requires
        old(node).wf(),
    ensures
        final(node).wf(),
        raw_sent(old(node)@, final(node)@, peer_id@, MessageType::Request, payload@, r),
{
    node.send_raw(peer_id, MessageType::Request, payload)
}

/// Makes the frame of an answer. `payload` is the encoded response.
pub fn send_response<C: ?Sized>(node: &mut Node<C>, peer_id: &str, payload: &[u8]) -> (r: Result<
    (Arc<C>, Vec<u8>),
>)
    requires
        old(node).wf(),
    ensures
        final(node).wf(),
        raw_sent(old(node)@, final(node)@, peer_id@, MessageType::Response, payload@, r),
{
    node.send_raw(peer_id, MessageType::Response, payload)
}

/// What a failed handler puts into the answer: the name of a method that is not offered, and the
/// message of any other error.
pub open spec fn failure_of(e: MlinkError, text: Seq<char>) -> bool {
    match e {
        MlinkError::UnknownMethod(m) => text == m@,
        MlinkError::Io(_) => e.message().is_prefix_of(text),
        _ => text == e.message(),
    }
}

/// Whether `resp` is the answer for what a handler gave.
pub open spec fn answer_for(outcome: Result<Vec<u8>>, resp: RpcResponse) -> bool {
    match outcome {
        Ok(out) => resp.status == RPC_STATUS_OK && resp.data@ == out@,
        Err(e) => resp.status == RPC_STATUS_ERROR && exists|text: Seq<char>| #[trigger]
            failure_of(e, text) && resp.data@ == encode_utf8(text),
    }
}

/// The answer to a call, from what its handler gave.
pub fn dispatch_request(request_id: u16, outcome: Result<Vec<u8>>) -> (resp: RpcResponse)
    ensures
        resp.request_id == request_id,
        answer_for(outcome, resp),
{
    match outcome {
        Ok(out) => RpcResponse { request_id, status: RPC_STATUS_OK, data: out },
        Err(e) => {
            let text: String = match &e {
                MlinkError::UnknownMethod(m) => m.clone(),
                _ => e.to_string(),
            };
            let data = vstd::slice::slice_to_vec(text.as_str().as_bytes());
            assert(failure_of(e, text@) && data@ == encode_utf8(text@));
            RpcResponse { request_id, status: RPC_STATUS_ERROR, data }
        },
    }
}

/// The caller gets what the handler gave: its result, or a message that names what went wrong.
pub proof fn answer_carries_the_outcome(
    outcome: Result<Vec<u8>>,
    resp: RpcResponse,
    r: Result<Vec<u8>>,
)
    requires
        answer_for(outcome, resp),
        answers(r, resp),
    ensures
        match outcome {
            Ok(out) => r matches Ok(d) && d@ == out@,
            Err(e) => r matches Err(MlinkError::HandlerError(m)) && failure_of(e, m@),
        },
{
    if let Err(e) = outcome {
        let text = choose|text: Seq<char>| #[trigger]
            failure_of(e, text) && resp.data@ == encode_utf8(text);
        vstd::utf8::encode_utf8_valid_utf8(text);
        vstd::utf8::encode_utf8_decode_utf8(text);
    }
}

/// An answer with status 0 is a result, with the bytes as they are; with any other status it is an
/// error, with the bytes as its message where they are text.
pub proof fn status_tells_success(r: Result<Vec<u8>>, resp: RpcResponse)
    requires
        answers(r, resp),
    ensures
        resp.status == 0 <==> r is Ok,
        r matches Ok(d) ==> d@ == resp.data@,
        r matches Err(e) ==> (e matches MlinkError::HandlerError(m) && (if valid_utf8(resp.data@) {
            m@ == decode_utf8(resp.data@)
        } else {
            m@ == "rpc error"@
        })),
{
}

/// A handler's result is answered with status 0 and its bytes. An error is answered with status 1
/// and a message: for a method that is not offered its name, and for any other the error's own.
pub proof fn outcome_is_answered(outcome: Result<Vec<u8>>, resp: RpcResponse)
    requires
        answer_for(outcome, resp),
    ensures
        outcome matches Ok(d) ==> resp.status == 0 && resp.data@ == d@,
        outcome is Err ==> resp.status == 1,
        outcome matches Err(MlinkError::UnknownMethod(m)) ==> resp.data@ == encode_utf8(m@),
        outcome matches Err(MlinkError::HandlerError(m)) ==> resp.data@ == encode_utf8(
            "handler error: "@ + m@,
        ),
        outcome matches Err(MlinkError::Timeout) ==> resp.data@ == encode_utf8(
            "request timed out"@,
        ),
        outcome matches Err(MlinkError::PeerGone { peer_id }) ==> resp.data@ == encode_utf8(
            "peer disconnected: "@ + peer_id@,
        ),
        outcome matches Err(e) ==> (!(e is UnknownMethod) && !(e is Io) ==> resp.data@
            == encode_utf8(e.message())),
{
}

} // verus!
