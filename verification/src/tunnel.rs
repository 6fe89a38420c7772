//! What each end of the tunnel does with a websocket message it receives.

use vstd::prelude::*;
use crate::error::{Error, ErrorV};
use crate::message;
use crate::message::TunnelMessage2;
use crate::state::{ClientContext, ClientContextV, QueueMessage, ServerContext, ServerContextV};

verus! {

/// A websocket message, by what the tunnel does with it.
pub enum WsEvent {
    Pong,
    Binary(Vec<u8>),
    Close,
    Other,
}

/// What the client's receiving loop does next.
pub enum ClientStep {
    /// Keep reading.
    Continue,
    /// The server closed the tunnel: stop reading.
    Stop,
    /// A binary message did not parse; it is dropped and reading goes on.
    Rejected(Error),
}

/// The bytes of a websocket message before a final end marker (the whole
/// message when it does not end with one).
fn frame_bytes(b: &Vec<u8>) -> (r: Vec<u8>)
    ensures
        r@ == message::frame_of(b@).0,
{
    assert(b@.take(b@.len() as int) =~= b@);
    match message::len_without_eof_marker(b.as_slice(), b.len()) {
        Some(n) => crate::bytes::sub_bytes(b.as_slice(), 0, n),
        None => crate::bytes::sub_bytes(b.as_slice(), 0, b.len()),
    }
}

/// The client's handling of a websocket message: a binary message is a
/// request, read from its bytes before the end marker the sender writes
/// after it, and queued when it parses; a close ends the loop; anything
/// else is passed over. `None` for a binary message that the parser refuses
/// with a panic (a status line whose code does not read), leaving the state
/// as it was. Where the bytes name an id by its text, the UUID parser reads
/// that text back as the id.
pub fn client_on_message(ctx: &mut ClientContext, event: WsEvent) -> (r: Option<ClientStep>)
    ensures
        match event {
            WsEvent::Binary(b) => match r {
                None => !message::message2_parse_ok(message::frame_of(b@).0) && final(ctx)@ == old(ctx)@,
                Some(ClientStep::Continue) => message::message2_parse_ok(message::frame_of(b@).0) && exists|m: TunnelMessage2|
                    #![auto]
                    message::message2_parse(message::frame_of(b@).0) == Ok::<message::TunnelMessage2V, ErrorV>(m@)
                        && final(ctx)@ == (ClientContextV {
                        requests: old(ctx)@.requests.push(QueueMessage::Message(m)),
                        ..old(ctx)@
                    }),
                Some(ClientStep::Rejected(e)) => message::message2_parse_ok(message::frame_of(b@).0)
                    && message::message2_parse(message::frame_of(b@).0) == Err::<message::TunnelMessage2V, ErrorV>(e@)
                    && final(ctx)@ == old(ctx)@,
                Some(ClientStep::Stop) => false,
            },
            WsEvent::Close => r matches Some(ClientStep::Stop) && final(ctx)@ == old(ctx)@,
            _ => r matches Some(ClientStep::Continue) && final(ctx)@ == old(ctx)@,
        },
        event matches WsEvent::Binary(b) ==> forall|v: u128|
            #![trigger crate::id::uuid_text(v)]
            message::message2_id_at(message::frame_of(b@).0, crate::id::uuid_text(v))
                ==> crate::id::id_reads_back(v),
{
    match event {
        WsEvent::Binary(b) => match TunnelMessage2::checked_from_buffer(frame_bytes(&b).as_slice()) {
            None => None,
            Some(Ok(m)) => {
                ctx.add_request(m);
                Some(ClientStep::Continue)
            },
            Some(Err(e)) => Some(ClientStep::Rejected(e)),
        },
        WsEvent::Close => Some(ClientStep::Stop),
        _ => Some(ClientStep::Continue),
    }
}

/// The server's handling of a websocket message: a binary message is a
/// response, read from its bytes before the end marker the sender writes
/// after it, and filed under its id when it parses, else its error is
/// returned; anything else is passed over. `None` for a binary message that
/// the parser refuses with a panic, leaving the state as it was. Where the
/// bytes name an id by its text, the UUID parser reads that text back as the
/// id.
pub fn server_on_message(ctx: &mut ServerContext, event: WsEvent) -> (r: Option<Result<(), Error>>)
    ensures
        match event {
            WsEvent::Binary(b) => match r {
                None => !message::message2_parse_ok(message::frame_of(b@).0) && final(ctx)@ == old(ctx)@,
                Some(Ok(())) => message::message2_parse_ok(message::frame_of(b@).0) && exists|m: TunnelMessage2|
                    #![auto]
                    message::message2_parse(message::frame_of(b@).0) == Ok::<message::TunnelMessage2V, ErrorV>(m@)
                        && final(ctx)@ == (ServerContextV {
                        responses: old(ctx)@.responses.insert(m.header.id, m),
                        ..old(ctx)@
                    }),
                Some(Err(e)) => message::message2_parse_ok(message::frame_of(b@).0) && message::message2_parse(message::frame_of(b@).0)
                    == Err::<message::TunnelMessage2V, ErrorV>(e@) && final(ctx)@ == old(ctx)@,
            },
            _ => r matches Some(Ok(())) && final(ctx)@ == old(ctx)@,
        },
        event matches WsEvent::Binary(b) ==> forall|v: u128|
            #![trigger crate::id::uuid_text(v)]
            message::message2_id_at(message::frame_of(b@).0, crate::id::uuid_text(v))
                ==> crate::id::id_reads_back(v),
{
    match event {
        WsEvent::Binary(b) => match TunnelMessage2::checked_from_buffer(frame_bytes(&b).as_slice()) {
            None => None,
            Some(Ok(m)) => {
                ctx.add_response(m);
                Some(Ok(()))
            },
            Some(Err(e)) => Some(Err(e)),
        },
        _ => Some(Ok(())),
    }
}

/// A message one end writes is read by the other unchanged: the bytes
/// before the end marker of a written well-formed message read, without a
/// panic, as the message, once the UUID parser reads its id's text back as
/// the id, which the step functions above report for the bytes they read.
/// So [`client_on_message`] queues, and [`server_on_message`] files, the
/// message written.
pub proof fn lemma_written_message_read(m: message::TunnelMessage2V)
    requires
        crate::roundtrip::message2_wf(m),
    ensures
        ({
            let f = message::frame_of(message::message2_bytes(m)).0;
            &&& message::message2_parse_ok(f)
            &&& message::message2_id_at(f, crate::id::uuid_text(m.header.1))
            &&& crate::id::id_reads_back(m.header.1) ==> message::message2_parse(f) == Ok::<
                message::TunnelMessage2V,
                ErrorV,
            >(m)
        }),
{
    crate::roundtrip::lemma_message2_roundtrip(m);
}

} // verus!
