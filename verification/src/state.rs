//! The shared state of the server and of the client: whether a tunnel is
//! up, the queue of requests waiting to cross it, and the responses waiting
//! to be picked up by id.

use vstd::prelude::*;
use std::collections::{HashMap, VecDeque};
use crate::config::{ClientConfig, ServerConfig};
use crate::message::TunnelMessage2;

verus! {

broadcast use vstd::std_specs::hash::group_hash_axioms;

/// Whether the tunnel's client has been accepted.
pub struct TunnelState {
    verified: bool,
}

impl View for TunnelState {
    type V = bool;

    closed spec fn view(&self) -> bool {
        self.verified
    }
}

/// The flag of a tunnel after a call of `verify` (`true`) or of `reset`
/// (`false`) on a tunnel whose flag was `flag`.
pub open spec fn tunnel_after(flag: bool, call: bool) -> bool {
    call
}

/// The flag of a tunnel after a sequence of such calls, in order.
pub open spec fn tunnel_run(flag: bool, calls: Seq<bool>) -> bool
    decreases calls.len(),
{
    if calls.len() == 0 {
        flag
    } else {
        tunnel_run(tunnel_after(flag, calls[0]), calls.drop_first())
    }
}

impl TunnelState {
    /// A tunnel not yet verified.
    pub fn new() -> (r: Self)
        ensures
            r@ == false,
    {
        TunnelState { verified: false }
    }

    pub fn is_verified(&self) -> (r: bool)
        ensures
            r == self@,
    {
        self.verified
    }

    /// Marks the tunnel verified.
    pub fn verify(&mut self)
        ensures
            final(self)@ == true,
            final(self)@ == tunnel_after(old(self)@, true),
    {
        self.verified = true;
    }

    /// Marks the tunnel not verified.
    pub fn reset(&mut self)
        ensures
            final(self)@ == false,
            final(self)@ == tunnel_after(old(self)@, false),
    {
        self.verified = false;
    }
}

/// An entry of the request queue: a message to send, or a ping.
pub enum QueueMessage {
    Message(TunnelMessage2),
    Ping,
}

/// Requests waiting to cross the tunnel, first in first out.
pub struct MessageQueue {
    messages: VecDeque<QueueMessage>,
}

impl View for MessageQueue {
    type V = Seq<QueueMessage>;

    closed spec fn view(&self) -> Seq<QueueMessage> {
        self.messages@
    }
}

impl MessageQueue {
    /// An empty queue.
    pub fn new() -> (r: Self)
        ensures
            r@ == Seq::<QueueMessage>::empty(),
    {
        MessageQueue { messages: VecDeque::new() }
    }

    /// Adds a message at the back.
    pub fn push(&mut self, message: QueueMessage)
        ensures
            final(self)@ == old(self)@.push(message),
    {
        self.messages.push_back(message);
    }

    /// Takes the message at the front, if any.
    pub fn pop(&mut self) -> (r: Option<QueueMessage>)
        ensures
            match r {
                Some(m) => old(self)@.len() > 0 && m == old(self)@[0] && final(self)@
                    == old(self)@.drop_first(),
                None => old(self)@.len() == 0 && final(self)@ == old(self)@,
            },
    {
        let r = self.messages.pop_front();
        proof {
            if r is Some {
                assert(self.messages@ =~= old(self)@.drop_first());
            }
        }
        r
    }

    /// Drops every message.
    pub fn clear(&mut self)
        ensures
            final(self)@ == Seq::<QueueMessage>::empty(),
    {
        self.messages.clear();
    }
}

/// Responses that came back through the tunnel, by message id.
pub struct MessageMap {
    messages: HashMap<u128, TunnelMessage2>,
}

impl View for MessageMap {
    type V = Map<u128, TunnelMessage2>;

    closed spec fn view(&self) -> Map<u128, TunnelMessage2> {
        self.messages@
    }
}

impl MessageMap {
    /// An empty map.
    pub fn new() -> (r: Self)
        ensures
            r@ == Map::<u128, TunnelMessage2>::empty(),
    {
        MessageMap { messages: HashMap::new() }
    }

    /// Files a response under its id, replacing one filed before.
    pub fn add(&mut self, message: TunnelMessage2)
        ensures
            final(self)@ == old(self)@.insert(message.header.id, message),
    {
        let id = message.header.id;
        self.messages.insert(id, message);
    }

    /// Takes out the response filed under `id`, if any.
    pub fn take(&mut self, id: &u128) -> (r: Option<TunnelMessage2>)
        ensures
            final(self)@ == old(self)@.remove(*id),
            match r {
                Some(m) => old(self)@.contains_key(*id) && m == old(self)@[*id],
                None => !old(self)@.contains_key(*id),
            },
    {
        self.messages.remove(id)
    }

    /// Drops every response.
    pub fn clear(&mut self)
        ensures
            final(self)@ == Map::<u128, TunnelMessage2>::empty(),
    {
        self.messages.clear();
    }
}

/// The server's state: its configuration, the tunnel, the requests to send
/// and the responses received.
pub struct ServerContext {
    config: ServerConfig,
    tunnel_state: TunnelState,
    req_queue: MessageQueue,
    res_map: MessageMap,
}

/// The abstract value of a [`ServerContext`]: verified flag, queued
/// requests, filed responses.
pub struct ServerContextV {
    pub config: ServerConfig,
    pub verified: bool,
    pub requests: Seq<QueueMessage>,
    pub responses: Map<u128, TunnelMessage2>,
}

impl View for ServerContext {
    type V = ServerContextV;

    closed spec fn view(&self) -> ServerContextV {
        ServerContextV {
            config: self.config,
            verified: self.tunnel_state@,
            requests: self.req_queue@,
            responses: self.res_map@,
        }
    }
}

impl ServerContext {
    /// A fresh state: not verified, nothing queued, nothing filed.
    pub fn new(config: ServerConfig) -> (r: Self)
        ensures
            r@ == (ServerContextV {
                config,
                verified: false,
                requests: Seq::<QueueMessage>::empty(),
                responses: Map::<u128, TunnelMessage2>::empty(),
            }),
    {
        ServerContext {
            tunnel_state: TunnelState::new(),
            req_queue: MessageQueue::new(),
            res_map: MessageMap::new(),
            config,
        }
    }

    /// The configuration the server runs with.
    pub fn config(&self) -> (r: &ServerConfig)
        ensures
            *r == self@.config,
    {
        &self.config
    }

    pub fn is_verified(&self) -> (r: bool)
        ensures
            r == self@.verified,
    {
        self.tunnel_state.is_verified()
    }

    pub fn verify(&mut self)
        ensures
            final(self)@ == (ServerContextV { verified: true, ..old(self)@ }),
    {
        self.tunnel_state.verify();
    }

    pub fn unverify(&mut self)
        ensures
            final(self)@ == (ServerContextV { verified: false, ..old(self)@ }),
    {
        self.tunnel_state.reset();
    }

    /// Queues a request for the client.
    pub fn add_request(&mut self, message: TunnelMessage2)
        ensures
            final(self)@ == (ServerContextV {
                requests: old(self)@.requests.push(QueueMessage::Message(message)),
                ..old(self)@
            }),
    {
        self.req_queue.push(QueueMessage::Message(message));
    }

    /// Takes the oldest queued request, if any.
    pub fn get_request(&mut self) -> (r: Option<QueueMessage>)
        ensures
            match r {
                Some(m) => old(self)@.requests.len() > 0 && m == old(self)@.requests[0] && final(self)@
                    == (ServerContextV { requests: old(self)@.requests.drop_first(), ..old(self)@ }),
                None => old(self)@.requests.len() == 0 && final(self)@ == old(self)@,
            },
    {
        self.req_queue.pop()
    }

    pub fn clear_requests(&mut self)
        ensures
            final(self)@ == (ServerContextV { requests: Seq::<QueueMessage>::empty(), ..old(self)@ }),
    {
        self.req_queue.clear();
    }

    /// Files a response that came back through the tunnel.
    pub fn add_response(&mut self, message: TunnelMessage2)
        ensures
            final(self)@ == (ServerContextV {
                responses: old(self)@.responses.insert(message.header.id, message),
                ..old(self)@
            }),
    {
        self.res_map.add(message);
    }

    /// Takes out the response filed under `id`, if it has come.
    pub fn get_response(&mut self, id: &u128) -> (r: Option<TunnelMessage2>)
        ensures
            final(self)@ == (ServerContextV {
                responses: old(self)@.responses.remove(*id),
                ..old(self)@
            }),
            match r {
                Some(m) => old(self)@.responses.contains_key(*id) && m == old(self)@.responses[*id],
                None => !old(self)@.responses.contains_key(*id),
            },
    {
        self.res_map.take(id)
    }

    pub fn clear_responses(&mut self)
        ensures
            final(self)@ == (ServerContextV {
                responses: Map::<u128, TunnelMessage2>::empty(),
                ..old(self)@
            }),
    {
        self.res_map.clear();
    }

    /// Back to the fresh state: not verified, nothing queued, nothing filed.
    pub fn reset(&mut self)
        ensures
            final(self)@ == (ServerContextV {
                verified: false,
                requests: Seq::<QueueMessage>::empty(),
                responses: Map::<u128, TunnelMessage2>::empty(),
                ..old(self)@
            }),
    {
        self.tunnel_state.reset();
        self.req_queue.clear();
        self.res_map.clear();
    }
}

/// The client's state: its configuration, the tunnel, and the requests
/// received and waiting to be forwarded.
pub struct ClientContext {
    config: ClientConfig,
    tunnel_state: TunnelState,
    req_queue: MessageQueue,
}

/// The abstract value of a [`ClientContext`]: verified flag and queued
/// requests.
pub struct ClientContextV {
    pub config: ClientConfig,
    pub verified: bool,
    pub requests: Seq<QueueMessage>,
}

impl View for ClientContext {
    type V = ClientContextV;

    closed spec fn view(&self) -> ClientContextV {
        ClientContextV {
            config: self.config,
            verified: self.tunnel_state@,
            requests: self.req_queue@,
        }
    }
}

impl ClientContext {
    /// A fresh state: not verified, nothing queued.
    pub fn new(config: ClientConfig) -> (r: Self)
        ensures
            r@ == (ClientContextV {
                config,
                verified: false,
                requests: Seq::<QueueMessage>::empty(),
            }),
    {
        ClientContext { tunnel_state: TunnelState::new(), req_queue: MessageQueue::new(), config }
    }

    /// The configuration the client runs with.
    pub fn config(&self) -> (r: &ClientConfig)
        ensures
            *r == self@.config,
    {
        &self.config
    }

    pub fn is_verified(&self) -> (r: bool)
        ensures
            r == self@.verified,
    {
        self.tunnel_state.is_verified()
    }

    pub fn verify(&mut self)
        ensures
            final(self)@ == (ClientContextV { verified: true, ..old(self)@ }),
    {
        self.tunnel_state.verify();
    }

    pub fn unverify(&mut self)
        ensures
            final(self)@ == (ClientContextV { verified: false, ..old(self)@ }),
    {
        self.tunnel_state.reset();
    }

    /// Queues a request received from the server.
    pub fn add_request(&mut self, message: TunnelMessage2)
        ensures
            final(self)@ == (ClientContextV {
                requests: old(self)@.requests.push(QueueMessage::Message(message)),
                ..old(self)@
            }),
    {
        self.req_queue.push(QueueMessage::Message(message));
    }

    /// Takes the oldest queued request, if any.
    pub fn get_request(&mut self) -> (r: Option<QueueMessage>)
        ensures
            match r {
                Some(m) => old(self)@.requests.len() > 0 && m == old(self)@.requests[0] && final(self)@
                    == (ClientContextV { requests: old(self)@.requests.drop_first(), ..old(self)@ }),
                None => old(self)@.requests.len() == 0 && final(self)@ == old(self)@,
            },
    {
        self.req_queue.pop()
    }

    pub fn clear_requests(&mut self)
        ensures
            final(self)@ == (ClientContextV { requests: Seq::<QueueMessage>::empty(), ..old(self)@ }),
    {
        self.req_queue.clear();
    }

    /// Back to the fresh state: not verified, nothing queued.
    pub fn reset(&mut self)
        ensures
            final(self)@ == (ClientContextV {
                verified: false,
                requests: Seq::<QueueMessage>::empty(),
                ..old(self)@
            }),
    {
        self.tunnel_state.reset();
        self.req_queue.clear();
    }
}


/// Requests leave the queue in the order they came: of two requests queued
/// on an empty queue, the first is taken first, then the second.
pub proof fn lemma_queue_order(q: Seq<QueueMessage>, a: QueueMessage, b: QueueMessage)
    requires
        q.len() == 0,
    ensures
        q.push(a).push(b)[0] == a,
        q.push(a).push(b).drop_first()[0] == b,
        q.push(a).push(b).drop_first().drop_first().len() == 0,
{
}

/// A response filed under its id is what a request waiting for that id
/// picks up, once: after it is taken out nothing is left under that id, and
/// other ids keep their responses.
pub proof fn lemma_response_pickup(m: Map<u128, TunnelMessage2>, msg: TunnelMessage2, other: u128)
    requires
        other != msg.header.id,
    ensures
        m.insert(msg.header.id, msg).contains_key(msg.header.id),
        m.insert(msg.header.id, msg)[msg.header.id] == msg,
        !m.insert(msg.header.id, msg).remove(msg.header.id).contains_key(msg.header.id),
        m.insert(msg.header.id, msg).remove(msg.header.id).contains_key(other) == m.contains_key(
            other,
        ),
{
}

/// After any calls of `verify` and `reset`, a tunnel is verified exactly
/// when there was a call and the last one was `verify`; a new tunnel, with
/// no call made, is not verified.
pub proof fn lemma_tunnel_calls(calls: Seq<bool>)
    ensures
        tunnel_run(false, calls) == (calls.len() > 0 && calls.last()),
{
    lemma_tunnel_run(false, calls);
}

proof fn lemma_tunnel_run(flag: bool, calls: Seq<bool>)
    ensures
        tunnel_run(flag, calls) == if calls.len() == 0 {
            flag
        } else {
            calls.last()
        },
    decreases calls.len(),
{
    if calls.len() > 0 {
        lemma_tunnel_run(tunnel_after(flag, calls[0]), calls.drop_first());
        if calls.len() > 1 {
            assert(calls.drop_first().last() == calls.last());
        }
    }
}

/// The contents of a queue after pushing `xs` in order.
pub open spec fn push_all(q: Seq<QueueMessage>, xs: Seq<QueueMessage>) -> Seq<QueueMessage>
    decreases xs.len(),
{
    if xs.len() == 0 {
        q
    } else {
        push_all(q.push(xs[0]), xs.drop_first())
    }
}

/// What `n` pops take from a queue holding `q`, in order (stopping when it
/// runs empty), and what is left.
pub open spec fn pop_n(q: Seq<QueueMessage>, n: nat) -> (Seq<QueueMessage>, Seq<QueueMessage>)
    decreases n,
{
    if n == 0 || q.len() == 0 {
        (seq![], q)
    } else {
        let (taken, left) = pop_n(q.drop_first(), (n - 1) as nat);
        (seq![q[0]] + taken, left)
    }
}

proof fn lemma_push_all(q: Seq<QueueMessage>, xs: Seq<QueueMessage>)
    ensures
        push_all(q, xs) == q + xs,
    decreases xs.len(),
{
    if xs.len() > 0 {
        lemma_push_all(q.push(xs[0]), xs.drop_first());
        assert(q.push(xs[0]) + xs.drop_first() =~= q + xs);
    } else {
        assert(q + xs =~= q);
    }
}

proof fn lemma_pop_all(q: Seq<QueueMessage>)
    ensures
        pop_n(q, q.len()) == (q, Seq::<QueueMessage>::empty()),
    decreases q.len(),
{
    if q.len() > 0 {
        lemma_pop_all(q.drop_first());
        assert(seq![q[0]] + q.drop_first() =~= q);
    } else {
        assert(q =~= Seq::<QueueMessage>::empty());
    }
}

/// Requests leave the queue in the order they came, each once: popping a
/// queue holding `q` after `xs` were pushed takes `q` and then `xs`, in
/// order, and leaves it empty. After `clear` (`q` empty) the pops give
/// exactly what was pushed since, so nothing pushed before the clear comes
/// out.
pub proof fn lemma_queue_fifo(q: Seq<QueueMessage>, xs: Seq<QueueMessage>)
    ensures
        pop_n(push_all(q, xs), q.len() + xs.len()) == (q + xs, Seq::<QueueMessage>::empty()),
{
    lemma_push_all(q, xs);
    lemma_pop_all(q + xs);
}

} // verus!
