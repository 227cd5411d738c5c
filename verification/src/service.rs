//! The per-frame protocol handler: decode one text frame, dispatch on the
//! message kind, drive the registry, and enqueue responses and addressed
//! forwards.  Forwarded frames travel as the original raw text, never
//! re-encoded, so fields the hub does not understand are preserved.
//!
//! Any error is reported to the caller and never closes the connection;
//! delivery onto peer queues is best-effort throughout.

use vstd::prelude::*;

use crate::assoc::{lemma_map_of_contains, lemma_map_of_get, map_of};
use crate::channel::{same_channel, send_frame};
use crate::codec::{decode_message, encode_message, spec_decode};
use crate::errors::SignalError;
use crate::ice::IceEnv;
use crate::rtc::{MsgV, SignallerMessage};
use crate::state::State;

verus! {

/// Forward the original raw frame to the peer named `to`; fails with
/// `PeerNotFound` when no such peer is connected.
fn forward_raw(state: &State, to: &str, raw: &str) -> (r: Result<(), SignalError>)
    requires
        state.wf(),
    ensures
        r is Ok <==> state@.peers.contains_key(to@),
        r is Err ==> r == Err::<(), SignalError>(SignalError::PeerNotFound),
{
    let mut i: usize = 0;
    while i < state.peers.len()
        invariant
            i <= state.peers@.len(),
            forall|j: int| 0 <= j < i ==> #[trigger] state.pkv()[j].0 != to@,
        decreases state.peers@.len() - i,
    {
        if crate::text::str_eq(state.peers[i].0.as_str(), to) {
            proof {
                lemma_map_of_contains(state.pkv(), to@);
                assert(state.pkv()[i as int].0 == to@);
                assert(map_of(state.pkv()).contains_key(to@));
            }
            send_frame(&state.peers[i].1.sender, raw.to_owned());
            return Ok(());
        }
        i = i + 1;
    }
    proof {
        lemma_map_of_contains(state.pkv(), to@);
    }
    Err(SignalError::PeerNotFound)
}

/// The room of the peer whose outbound queue `tx` feeds, found by
/// sender-handle identity.  What the comparison yields is up to the
/// channel; whatever it yields, a returned room belongs to some peer.
fn room_of_channel(state: &State, tx: &futures_channel::mpsc::UnboundedSender<String>) -> (r:
    Option<String>)
    requires
        state.wf(),
    ensures
        r matches Some(room) ==> exists|p: Seq<char>|
            #[trigger] state@.peers.contains_key(p) && state@.peers[p].room == room@,
{
    let mut i: usize = 0;
    while i < state.peers.len()
        invariant
            i <= state.peers@.len(),
            state.wf(),
        decreases state.peers@.len() - i,
    {
        if same_channel(&state.peers[i].1.sender, tx) {
            proof {
                lemma_map_of_get(state.pkv(), i as int);
                assert(state@.peers.contains_key(state.pkv()[i as int].0));
            }
            return Some(state.peers[i].1.room.clone());
        }
        i = i + 1;
    }
    None
}

/// Handle one inbound text frame.  The registry transition is exact for
/// every message kind; enqueued responses and forwards are best-effort.
/// `start_time` is the wall-clock timestamp recorded for a session this
/// frame may create.
#[verifier::rlimit(100)]
#[verifier::spinoff_prover]
pub fn handle_message(
    state: &mut State,
    tx: &futures_channel::mpsc::UnboundedSender<String>,
    raw_payload: &str,
    socket_addr: u64,
    ice_env: &IceEnv,
    start_time: u64,
) -> (r: Result<(), SignalError>)
    requires
        old(state).wf(),
    ensures
        final(state).wf(),
        match spec_decode(raw_payload@) {
            None => r == Err::<(), SignalError>(SignalError::MalformedFrame) && final(state)@
                == old(state)@,
            Some(m) => match m {
                MsgV::Start { room, name, os, version, control } => if old(state)@.can_host(
                    room,
                    socket_addr,
                ) {
                    r is Ok && final(state)@ == old(state)@.with_viewer_dropped(
                        room,
                    ).with_session_added(
                        room,
                        name,
                        os,
                        version,
                        control,
                        socket_addr,
                        start_time,
                    )
                } else {
                    r == Err::<(), SignalError>(SignalError::DeviceOnline) && final(state)@ == old(
                        state,
                    )@
                },
                MsgV::Join { from, room } => r is Ok && if old(state)@.sessions.contains_key(room)
                    && !old(state)@.sessions.contains_key(from) {
                    final(state)@ == old(state)@.with_viewer_dropped(from).with_viewer_added(
                        from,
                        room,
                    )
                } else {
                    final(state)@ == old(state)@
                },
                MsgV::Leave { from } => (if old(state)@.sessions.contains_key(from) {
                    r is Ok && final(state)@ == old(state)@.with_session_removed(from)
                } else if old(state)@.peers.contains_key(from) {
                    r is Ok && final(state)@ == old(state)@.with_viewer_dropped(from)
                } else {
                    r == Err::<(), SignalError>(SignalError::PeerNotFound) && final(state)@ == old(
                        state,
                    )@
                }),
                MsgV::Offer { from, to } => final(state)@ == old(state)@ && (r is Ok <==> old(
                    state,
                )@.peers.contains_key(to)) && (r is Err ==> r == Err::<(), SignalError>(
                    SignalError::PeerNotFound,
                )),
                MsgV::Answer { from, to } => final(state)@ == old(state)@ && (r is Ok <==> old(
                    state,
                )@.peers.contains_key(to)) && (r is Err ==> r == Err::<(), SignalError>(
                    SignalError::PeerNotFound,
                )),
                MsgV::Ice { from, to } => final(state)@ == old(state)@ && (r is Ok <==> old(
                    state,
                )@.peers.contains_key(to)) && (r is Err ==> r == Err::<(), SignalError>(
                    SignalError::PeerNotFound,
                )),
                MsgV::JoinDeclined { to, reason } => final(state)@ == old(state)@ && (r is Ok <==>
                    old(state)@.peers.contains_key(to)) && (r is Err ==> r == Err::<
                    (),
                    SignalError,
                >(SignalError::PeerNotFound)),
                MsgV::SubscribeRoomUpdates => r is Ok && ((exists|p: Seq<char>|
                    #[trigger] old(state)@.peers.contains_key(p) && final(state)@ == old(
                        state,
                    )@.with_subscribed(old(state)@.peers[p].room)) || final(state)@ == old(
                    state,
                )@),
                MsgV::UnsubscribeRoomUpdates => r is Ok && ((exists|p: Seq<char>|
                    #[trigger] old(state)@.peers.contains_key(p) && final(state)@ == old(
                        state,
                    )@.with_unsubscribed(old(state)@.peers[p].room)) || final(state)@ == old(
                    state,
                )@),
                _ => r is Ok && final(state)@ == old(state)@,
            },
        },
{
    let msg = match decode_message(raw_payload) {
        Ok(m) => m,
        Err(_) => {
            return Err(SignalError::MalformedFrame);
        },
    };
    match msg {
        SignallerMessage::Start { room, name, os, version, control } => {
            let room_for_response = room.clone();
            let sender = tx.clone();
            match state.add_server(
                room,
                name,
                os,
                version,
                control,
                sender,
                socket_addr,
                start_time,
            ) {
                Ok(()) => {
                    let response = encode_message(
                        &SignallerMessage::StartResponse { room: room_for_response.clone() },
                    );
                    send_frame(tx, response);
                    state.notify_room_update(room_for_response.as_str());
                    Ok(())
                },
                Err(e) => Err(e),
            }
        },
        SignallerMessage::Join { from, room } => {
            let from_for_decline = from.clone();
            let room_for_forward = room.clone();
            let sender = tx.clone();
            match state.add_viewer(from, room, sender) {
                Ok(()) => {
                    proof {
                        assert(state@.sessions.contains_key(room_for_forward@));
                        assert(state@.inv());
                        assert(state@.session_ok(room_for_forward@));
                    }
                    let fwd = forward_raw(state, room_for_forward.as_str(), raw_payload);
                    proof {
                        assert(fwd is Ok);
                    }
                    Ok(())
                },
                Err(e) => {
                    let declined = encode_message(
                        &SignallerMessage::JoinDeclined {
                            to: from_for_decline,
                            reason: e.reason(),
                        },
                    );
                    send_frame(tx, declined);
                    Ok(())
                },
            }
        },
        SignallerMessage::Leave { from } => state.leave_session(from),
        SignallerMessage::Offer { to, .. } => forward_raw(state, to.as_str(), raw_payload),
        SignallerMessage::Answer { to, .. } => forward_raw(state, to.as_str(), raw_payload),
        SignallerMessage::Ice { to, .. } => forward_raw(state, to.as_str(), raw_payload),
        SignallerMessage::JoinDeclined { to, .. } => forward_raw(state, to.as_str(), raw_payload),
        SignallerMessage::IceServers => {
            let id = match room_of_channel(state, tx) {
                Some(room) => room,
                None => String::new(),
            };
            let ice_servers = state.get_ice_servers(id, ice_env);
            let response = encode_message(&SignallerMessage::IceServersResponse { ice_servers });
            send_frame(tx, response);
            Ok(())
        },
        SignallerMessage::GetRoomList { os, name, version, server, sort, control, page, per_page
        } => {
            let os_q = match &os {
                Some(s) => Some(s.as_str()),
                None => None,
            };
            let name_q = match &name {
                Some(s) => Some(s.as_str()),
                None => None,
            };
            let version_q = match &version {
                Some(s) => Some(s.as_str()),
                None => None,
            };
            let server_q = match &server {
                Some(s) => Some(s.as_str()),
                None => None,
            };
            let sort_q = match &sort {
                Some(s) => Some(s.as_str()),
                None => None,
            };
            let (rooms, total_count) = state.get_available_rooms(
                os_q,
                version_q,
                server_q,
                name_q,
                sort_q,
                control,
                page,
                per_page,
            );
            let response = encode_message(
                &SignallerMessage::RoomListResponse { rooms, total_count, page, per_page },
            );
            send_frame(tx, response);
            Ok(())
        },
        SignallerMessage::KeepAlive => Ok(()),
        SignallerMessage::SubscribeRoomUpdates => {
            match room_of_channel(state, tx) {
                Some(room) => {
                    state.subscribe_room_updates(room);
                },
                None => {},
            }
            Ok(())
        },
        SignallerMessage::UnsubscribeRoomUpdates => {
            match room_of_channel(state, tx) {
                Some(room) => {
                    state.unsubscribe_room_updates(room.as_str());
                },
                None => {},
            }
            Ok(())
        },
        SignallerMessage::StartResponse { .. } => Ok(()),
        SignallerMessage::ServerClosed { .. } => Ok(()),
        SignallerMessage::IceServersResponse { .. } => Ok(()),
        SignallerMessage::RoomListResponse { .. } => Ok(()),
        SignallerMessage::NewRoomNotification { .. } => Ok(()),
    }
}

} // verus!
