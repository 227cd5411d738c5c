//! The textual codec for [`SignallerMessage`]: decoding JSON frames into
//! messages and encoding messages as JSON.  Decoding fails exactly on JSON
//! errors, unknown discriminators and missing or ill-typed required fields;
//! unknown fields are ignored, and the first occurrence of a field is the
//! one read.

use vstd::prelude::*;

use crate::errors::SignalError;
use crate::json::{is_jws, members, spec_members, spec_str_body, spec_ws, str_body, ws_to, Member,
    MemberV, Prim, PrimV};
use crate::rtc::{IceServer, IceServerV, RoomInfo, RoomInfoV, SignallerMessage, MsgV};
use crate::text::{chars_of, str_eq, string_from_chars};

verus! {

/// The first member carrying `key`, if any.
pub open spec fn field_of(ms: Seq<MemberV>, key: Seq<char>) -> Option<PrimV>
    decreases ms.len(),
{
    if ms.len() == 0 {
        None
    } else if ms[0].key == key {
        Some(ms[0].val)
    } else {
        field_of(ms.drop_first(), key)
    }
}

/// A required string field.
pub open spec fn req_str(ms: Seq<MemberV>, key: Seq<char>) -> Option<Seq<char>> {
    match field_of(ms, key) {
        Some(PrimV::Str(s)) => Some(s),
        _ => None,
    }
}

/// A required boolean field.
pub open spec fn req_bool(ms: Seq<MemberV>, key: Seq<char>) -> Option<bool> {
    match field_of(ms, key) {
        Some(PrimV::Bool(b)) => Some(b),
        _ => None,
    }
}

/// A required unsigned field that must fit the platform's word.
pub open spec fn req_usize(ms: Seq<MemberV>, key: Seq<char>) -> Option<usize> {
    match field_of(ms, key) {
        Some(PrimV::Num(Some(n))) => if n <= usize::MAX as u64 {
            Some(n as usize)
        } else {
            None
        },
        _ => None,
    }
}

/// An optional string field: absent or null reads as `None`.  The outer
/// `Option` reports ill-typed values.
pub open spec fn opt_str(ms: Seq<MemberV>, key: Seq<char>) -> Option<Option<Seq<char>>> {
    match field_of(ms, key) {
        None => Some(None),
        Some(PrimV::Null) => Some(None),
        Some(PrimV::Str(s)) => Some(Some(s)),
        Some(_) => None,
    }
}

pub open spec fn opt_bool(ms: Seq<MemberV>, key: Seq<char>) -> Option<Option<bool>> {
    match field_of(ms, key) {
        None => Some(None),
        Some(PrimV::Null) => Some(None),
        Some(PrimV::Bool(b)) => Some(Some(b)),
        Some(_) => None,
    }
}

pub open spec fn opt_usize(ms: Seq<MemberV>, key: Seq<char>) -> Option<Option<usize>> {
    match field_of(ms, key) {
        None => Some(None),
        Some(PrimV::Null) => Some(None),
        Some(PrimV::Num(Some(n))) => if n <= usize::MAX as u64 {
            Some(Some(n as usize))
        } else {
            None
        },
        Some(_) => None,
    }
}

/// A string field with the empty string as its default; null is refused.
pub open spec fn dflt_str(ms: Seq<MemberV>, key: Seq<char>) -> Option<Seq<char>> {
    match field_of(ms, key) {
        None => Some(Seq::empty()),
        Some(PrimV::Str(s)) => Some(s),
        Some(_) => None,
    }
}

/// One ICE server record, from the members of its object.
pub open spec fn interp_ice(ms: Seq<MemberV>) -> Option<IceServerV> {
    match (req_str(ms, "url"@), dflt_str(ms, "username"@), dflt_str(ms, "password"@)) {
        (Some(url), Some(username), Some(password)) => Some(
            IceServerV { url, username, password },
        ),
        _ => None,
    }
}

/// The elements of the ICE server array whose bracket stands just before
/// `i`, and the position after the closing bracket.
pub open spec fn spec_ice_elems(s: Seq<char>, i: int, first: bool) -> Option<(Seq<IceServerV>, int)>
    decreases s.len() - i, 1int,
{
    if !(0 <= i < s.len()) {
        None
    } else if is_jws(s[i]) {
        spec_ice_elems(s, i + 1, first)
    } else if s[i] == ']' && first {
        Some((Seq::empty(), i + 1))
    } else if s[i] == '{' {
        match spec_members(s, i + 1, true) {
            Some(p) => if i + 2 <= p.1 <= s.len() {
                match interp_ice(p.0) {
                    Some(srv) => spec_ice_after(s, p.1, srv),
                    None => None,
                }
            } else {
                None
            },
            None => None,
        }
    } else {
        None
    }
}

pub open spec fn spec_ice_after(s: Seq<char>, i: int, srv: IceServerV) -> Option<
    (Seq<IceServerV>, int),
>
    decreases s.len() - i, 2int,
{
    match spec_ice_comma(s, i) {
        Some(p) => Some((seq![srv].add(p.0), p.1)),
        None => None,
    }
}

pub open spec fn spec_ice_comma(s: Seq<char>, i: int) -> Option<(Seq<IceServerV>, int)>
    decreases s.len() - i, 1int,
{
    if !(0 <= i < s.len()) {
        None
    } else if is_jws(s[i]) {
        spec_ice_comma(s, i + 1)
    } else if s[i] == ',' {
        spec_ice_elems(s, i + 1, false)
    } else if s[i] == ']' {
        Some((Seq::empty(), i + 1))
    } else {
        None
    }
}

/// The whole ICE server array starting exactly at `i`.
pub open spec fn spec_ice_array(s: Seq<char>, i: int) -> Option<Seq<IceServerV>> {
    if 0 <= i < s.len() && s[i] == '[' {
        match spec_ice_elems(s, i + 1, true) {
            Some(p) => Some(p.0),
            None => None,
        }
    } else {
        None
    }
}

/// The elements of the string array whose bracket stands just before `i`.
pub open spec fn spec_strs_elems(s: Seq<char>, i: int, first: bool) -> Option<
    (Seq<Seq<char>>, int),
>
    decreases s.len() - i, 1int,
{
    if !(0 <= i < s.len()) {
        None
    } else if is_jws(s[i]) {
        spec_strs_elems(s, i + 1, first)
    } else if s[i] == ']' && first {
        Some((Seq::empty(), i + 1))
    } else if s[i] == '"' {
        match spec_str_body(s, i + 1) {
            Some(p) => if i + 2 <= p.1 <= s.len() {
                spec_strs_after(s, p.1, p.0)
            } else {
                None
            },
            None => None,
        }
    } else {
        None
    }
}

pub open spec fn spec_strs_after(s: Seq<char>, i: int, x: Seq<char>) -> Option<
    (Seq<Seq<char>>, int),
>
    decreases s.len() - i, 2int,
{
    match spec_strs_comma(s, i) {
        Some(p) => Some((seq![x].add(p.0), p.1)),
        None => None,
    }
}

pub open spec fn spec_strs_comma(s: Seq<char>, i: int) -> Option<(Seq<Seq<char>>, int)>
    decreases s.len() - i, 1int,
{
    if !(0 <= i < s.len()) {
        None
    } else if is_jws(s[i]) {
        spec_strs_comma(s, i + 1)
    } else if s[i] == ',' {
        spec_strs_elems(s, i + 1, false)
    } else if s[i] == ']' {
        Some((Seq::empty(), i + 1))
    } else {
        None
    }
}

pub open spec fn spec_str_array(s: Seq<char>, i: int) -> Option<Seq<Seq<char>>> {
    if 0 <= i < s.len() && s[i] == '[' {
        match spec_strs_elems(s, i + 1, true) {
            Some(p) => Some(p.0),
            None => None,
        }
    } else {
        None
    }
}

/// One room record, from the full text and the start of its object.
pub open spec fn spec_room_info(s: Seq<char>, i: int) -> Option<RoomInfoV> {
    if 0 <= i < s.len() && s[i] == '{' {
        match spec_members(s, i + 1, true) {
            Some(p) => {
                let ms = p.0;
                match (
                    req_str(ms, "server"@),
                    req_usize(ms, "viewer_count"@),
                    field_of(ms, "viewers"@),
                    req_str(ms, "os"@),
                    req_str(ms, "version"@),
                    req_str(ms, "name"@),
                    req_bool(ms, "control"@),
                ) {
                    (
                        Some(server),
                        Some(viewer_count),
                        Some(PrimV::Span(q)),
                        Some(os),
                        Some(version),
                        Some(name),
                        Some(control),
                    ) => match spec_str_array(s, q) {
                        Some(viewers) => Some(
                            RoomInfoV { server, viewer_count, viewers, os, version, name, control },
                        ),
                        None => None,
                    },
                    _ => None,
                }
            },
            None => None,
        }
    } else {
        None
    }
}

/// The room map of a `room_list_response`: each member of the object maps
/// a room name to a room record.
pub open spec fn interp_rooms(s: Seq<char>, ms: Seq<MemberV>) -> Option<
    Seq<(Seq<char>, RoomInfoV)>,
>
    decreases ms.len(),
{
    if ms.len() == 0 {
        Some(Seq::empty())
    } else {
        match ms[0].val {
            PrimV::Span(q) => match (spec_room_info(s, q), interp_rooms(s, ms.drop_first())) {
                (Some(info), Some(rest)) => Some(seq![(ms[0].key, info)].add(rest)),
                _ => None,
            },
            _ => None,
        }
    }
}

pub open spec fn spec_rooms_obj(s: Seq<char>, i: int) -> Option<Seq<(Seq<char>, RoomInfoV)>> {
    if 0 <= i < s.len() && s[i] == '{' {
        match spec_members(s, i + 1, true) {
            Some(p) => interp_rooms(s, p.0),
            None => None,
        }
    } else {
        None
    }
}

/// The message carried by the members of the top-level object.
pub open spec fn spec_msg_of_members(s: Seq<char>, ms: Seq<MemberV>) -> Option<MsgV> {
    match req_str(ms, "type"@) {
        None => None,
        Some(t) => if t == "offer"@ {
            match (req_str(ms, "from"@), req_str(ms, "to"@)) {
                (Some(from), Some(to)) => Some(MsgV::Offer { from, to }),
                _ => None,
            }
        } else if t == "answer"@ {
            match (req_str(ms, "from"@), req_str(ms, "to"@)) {
                (Some(from), Some(to)) => Some(MsgV::Answer { from, to }),
                _ => None,
            }
        } else if t == "ice"@ {
            match (req_str(ms, "from"@), req_str(ms, "to"@)) {
                (Some(from), Some(to)) => Some(MsgV::Ice { from, to }),
                _ => None,
            }
        } else if t == "join"@ {
            match (req_str(ms, "from"@), req_str(ms, "room"@)) {
                (Some(from), Some(room)) => Some(MsgV::Join { from, room }),
                _ => None,
            }
        } else if t == "join_declined"@ {
            match (req_str(ms, "to"@), req_str(ms, "reason"@)) {
                (Some(to), Some(reason)) => Some(MsgV::JoinDeclined { to, reason }),
                _ => None,
            }
        } else if t == "start"@ {
            match (
                req_str(ms, "room"@),
                req_str(ms, "name"@),
                req_str(ms, "os"@),
                req_str(ms, "version"@),
                req_bool(ms, "control"@),
            ) {
                (Some(room), Some(name), Some(os), Some(version), Some(control)) => Some(
                    MsgV::Start { room, name, os, version, control },
                ),
                _ => None,
            }
        } else if t == "start_response"@ {
            match req_str(ms, "room"@) {
                Some(room) => Some(MsgV::StartResponse { room }),
                None => None,
            }
        } else if t == "leave"@ {
            match req_str(ms, "from"@) {
                Some(from) => Some(MsgV::Leave { from }),
                None => None,
            }
        } else if t == "server_closed"@ {
            match (req_str(ms, "to"@), req_str(ms, "room"@)) {
                (Some(to), Some(room)) => Some(MsgV::ServerClosed { to, room }),
                _ => None,
            }
        } else if t == "keep_alive"@ {
            Some(MsgV::KeepAlive)
        } else if t == "ice_servers"@ {
            Some(MsgV::IceServers)
        } else if t == "ice_servers_response"@ {
            match field_of(ms, "ice_servers"@) {
                Some(PrimV::Span(q)) => match spec_ice_array(s, q) {
                    Some(ice_servers) => Some(MsgV::IceServersResponse { ice_servers }),
                    None => None,
                },
                _ => None,
            }
        } else if t == "get_room_list"@ {
            match (
                opt_str(ms, "os"@),
                opt_str(ms, "name"@),
                opt_str(ms, "version"@),
                opt_str(ms, "server"@),
                opt_str(ms, "sort"@),
                opt_bool(ms, "control"@),
                opt_usize(ms, "page"@),
                opt_usize(ms, "per_page"@),
            ) {
                (
                    Some(os),
                    Some(name),
                    Some(version),
                    Some(server),
                    Some(sort),
                    Some(control),
                    Some(page),
                    Some(per_page),
                ) => Some(
                    MsgV::GetRoomList { os, name, version, server, sort, control, page, per_page },
                ),
                _ => None,
            }
        } else if t == "room_list_response"@ {
            match (
                field_of(ms, "rooms"@),
                req_usize(ms, "total_count"@),
                opt_usize(ms, "page"@),
                opt_usize(ms, "per_page"@),
            ) {
                (Some(PrimV::Span(q)), Some(total_count), Some(page), Some(per_page)) => match
                    spec_rooms_obj(s, q) {
                    Some(rooms) => Some(
                        MsgV::RoomListResponse { rooms, total_count, page, per_page },
                    ),
                    None => None,
                },
                _ => None,
            }
        } else if t == "subscribe_room_updates"@ {
            Some(MsgV::SubscribeRoomUpdates)
        } else if t == "unsubscribe_room_updates"@ {
            Some(MsgV::UnsubscribeRoomUpdates)
        } else if t == "new_room_notification"@ {
            match req_str(ms, "room"@) {
                Some(room) => Some(MsgV::NewRoomNotification { room }),
                None => None,
            }
        } else {
            None
        },
    }
}

/// What a frame decodes to: the message of the single top-level object,
/// with nothing but whitespace after it.
pub open spec fn spec_decode(s: Seq<char>) -> Option<MsgV> {
    let j = spec_ws(s, 0);
    if 0 <= j < s.len() && s[j] == '{' {
        match spec_members(s, j + 1, true) {
            Some(p) => if 0 <= p.1 <= s.len() && spec_ws(s, p.1) == s.len() {
                spec_msg_of_members(s, p.0)
            } else {
                None
            },
            None => None,
        }
    } else {
        None
    }
}

/// First member carrying `key`; mirrors [`field_of`].
fn get_field<'a>(ms: &'a Vec<Member>, key: &str) -> (r: Option<&'a Prim>)
    ensures
        match r {
            Some(p) => field_of(ms.deep_view(), key@) == Some(p@),
            None => field_of(ms.deep_view(), key@) is None,
        },
{
    let mut i: usize = 0;
    let ghost full = ms.deep_view();
    proof {
        assert(ms.deep_view().skip(0) =~= full);
    }
    while i < ms.len()
        invariant
            i <= ms@.len(),
            full == ms.deep_view(),
            field_of(full, key@) == field_of(ms.deep_view().skip(i as int), key@),
        decreases ms@.len() - i,
    {
        let ghost pre = ms.deep_view().skip(i as int);
        if str_eq(ms[i].key.as_str(), key) {
            proof {
                assert(pre[0] == ms.deep_view()[i as int]);
            }
            return Some(&ms[i].val);
        }
        proof {
            assert(pre[0] == ms.deep_view()[i as int]);
            assert(pre.drop_first() =~= ms.deep_view().skip(i + 1));
        }
        i = i + 1;
    }
    proof {
        assert(ms.deep_view().skip(i as int) =~= Seq::<MemberV>::empty());
    }
    None
}

fn req_str_of(ms: &Vec<Member>, key: &str) -> (r: Option<String>)
    ensures
        match r {
            Some(s) => req_str(ms.deep_view(), key@) == Some(s@),
            None => req_str(ms.deep_view(), key@) is None,
        },
{
    match get_field(ms, key) {
        Some(Prim::PStr(s)) => Some(s.clone()),
        _ => None,
    }
}

fn req_bool_of(ms: &Vec<Member>, key: &str) -> (r: Option<bool>)
    ensures
        r == req_bool(ms.deep_view(), key@),
{
    match get_field(ms, key) {
        Some(Prim::PBool(b)) => Some(*b),
        _ => None,
    }
}

fn req_usize_of(ms: &Vec<Member>, key: &str) -> (r: Option<usize>)
    ensures
        r == req_usize(ms.deep_view(), key@),
{
    match get_field(ms, key) {
        Some(Prim::PNum(Some(n))) => {
            if *n <= usize::MAX as u64 {
                Some(*n as usize)
            } else {
                None
            }
        },
        _ => None,
    }
}

fn opt_str_of(ms: &Vec<Member>, key: &str) -> (r: Option<Option<String>>)
    ensures
        match r {
            Some(Some(s)) => opt_str(ms.deep_view(), key@) == Some(Some(s@)),
            Some(None) => opt_str(ms.deep_view(), key@) == Some(None::<Seq<char>>),
            None => opt_str(ms.deep_view(), key@) is None,
        },
{
    match get_field(ms, key) {
        None => Some(None),
        Some(Prim::PNull) => Some(None),
        Some(Prim::PStr(s)) => Some(Some(s.clone())),
        Some(_) => None,
    }
}

fn opt_bool_of(ms: &Vec<Member>, key: &str) -> (r: Option<Option<bool>>)
    ensures
        r == opt_bool(ms.deep_view(), key@),
{
    match get_field(ms, key) {
        None => Some(None),
        Some(Prim::PNull) => Some(None),
        Some(Prim::PBool(b)) => Some(Some(*b)),
        Some(_) => None,
    }
}

fn opt_usize_of(ms: &Vec<Member>, key: &str) -> (r: Option<Option<usize>>)
    ensures
        r == opt_usize(ms.deep_view(), key@),
{
    match get_field(ms, key) {
        None => Some(None),
        Some(Prim::PNull) => Some(None),
        Some(Prim::PNum(Some(n))) => {
            if *n <= usize::MAX as u64 {
                Some(Some(*n as usize))
            } else {
                None
            }
        },
        Some(_) => None,
    }
}

fn dflt_str_of(ms: &Vec<Member>, key: &str) -> (r: Option<String>)
    ensures
        match r {
            Some(s) => dflt_str(ms.deep_view(), key@) == Some(s@),
            None => dflt_str(ms.deep_view(), key@) is None,
        },
{
    match get_field(ms, key) {
        None => Some(String::new()),
        Some(Prim::PStr(s)) => Some(s.clone()),
        Some(_) => None,
    }
}

/// Read one ICE server record; mirrors [`interp_ice`].
fn interp_ice_of(ms: &Vec<Member>) -> (r: Option<IceServer>)
    ensures
        match r {
            Some(srv) => interp_ice(ms.deep_view()) == Some(srv@),
            None => interp_ice(ms.deep_view()) is None,
        },
{
    let url = match req_str_of(ms, "url") {
        Some(u) => u,
        None => {
            return None;
        },
    };
    let username = match dflt_str_of(ms, "username") {
        Some(u) => u,
        None => {
            return None;
        },
    };
    let password = match dflt_str_of(ms, "password") {
        Some(p) => p,
        None => {
            return None;
        },
    };
    Some(IceServer { url, username, password })
}

fn ice_elems(v: &Vec<char>, i: usize, first: bool) -> (r: Option<(Vec<IceServer>, usize)>)
    ensures
        match r {
            Some(p) => spec_ice_elems(v@, i as int, first) == Some((p.0.deep_view(), p.1 as int))
                && i < p.1 <= v.len(),
            None => spec_ice_elems(v@, i as int, first) is None,
        },
    decreases v.len() - i, 1int,
{
    if !(i < v.len()) {
        return None;
    }
    let c = v[i];
    if c == ' ' || c == '\t' || c == '\n' || c == '\r' {
        ice_elems(v, i + 1, first)
    } else if c == ']' && first {
        let empty: Vec<IceServer> = Vec::new();
        proof {
            assert(empty.deep_view() =~= Seq::<IceServerV>::empty());
        }
        Some((empty, i + 1))
    } else if c == '{' {
        match members(v, i + 1, true) {
            Some(p) => {
                let (ms, e) = p;
                proof {
                    assert(spec_members(v@, i + 1 as int, true) == Some(
                        (ms.deep_view(), e as int),
                    ));
                }
                match interp_ice_of(&ms) {
                    Some(srv) => {
                        let ghost srv_v = srv@;
                        proof {
                            assert(spec_ice_elems(v@, i as int, first) == spec_ice_after(
                                v@,
                                e as int,
                                srv_v,
                            ));
                        }
                        match ice_comma(v, e) {
                            Some(q) => {
                                let (mut rest, e2) = q;
                                let ghost r0 = rest.deep_view();
                                rest.insert(0, srv);
                                proof {
                                    assert(rest.deep_view() =~= seq![srv_v].add(r0));
                                }
                                Some((rest, e2))
                            },
                            None => None,
                        }
                    },
                    None => None,
                }
            },
            None => None,
        }
    } else {
        None
    }
}

fn ice_comma(v: &Vec<char>, i: usize) -> (r: Option<(Vec<IceServer>, usize)>)
    ensures
        match r {
            Some(p) => spec_ice_comma(v@, i as int) == Some((p.0.deep_view(), p.1 as int)) && i
                < p.1 <= v.len(),
            None => spec_ice_comma(v@, i as int) is None,
        },
    decreases v.len() - i, 0int,
{
    if !(i < v.len()) {
        return None;
    }
    let c = v[i];
    if c == ' ' || c == '\t' || c == '\n' || c == '\r' {
        ice_comma(v, i + 1)
    } else if c == ',' {
        ice_elems(v, i + 1, false)
    } else if c == ']' {
        let empty: Vec<IceServer> = Vec::new();
        proof {
            assert(empty.deep_view() =~= Seq::<IceServerV>::empty());
        }
        Some((empty, i + 1))
    } else {
        None
    }
}

fn ice_array(v: &Vec<char>, i: usize) -> (r: Option<Vec<IceServer>>)
    ensures
        match r {
            Some(p) => spec_ice_array(v@, i as int) == Some(p.deep_view()),
            None => spec_ice_array(v@, i as int) is None,
        },
{
    if i < v.len() && v[i] == '[' {
        match ice_elems(v, i + 1, true) {
            Some(p) => Some(p.0),
            None => None,
        }
    } else {
        None
    }
}

fn strs_elems(v: &Vec<char>, i: usize, first: bool) -> (r: Option<(Vec<String>, usize)>)
    ensures
        match r {
            Some(p) => spec_strs_elems(v@, i as int, first) == Some((p.0.deep_view(), p.1 as int))
                && i < p.1 <= v.len(),
            None => spec_strs_elems(v@, i as int, first) is None,
        },
    decreases v.len() - i, 1int,
{
    if !(i < v.len()) {
        return None;
    }
    let c = v[i];
    if c == ' ' || c == '\t' || c == '\n' || c == '\r' {
        strs_elems(v, i + 1, first)
    } else if c == ']' && first {
        let empty: Vec<String> = Vec::new();
        proof {
            assert(empty.deep_view() =~= Seq::<Seq<char>>::empty());
        }
        Some((empty, i + 1))
    } else if c == '"' {
        match str_body(v, i + 1) {
            Some(p) => {
                let (content, e) = p;
                let ghost content_v = content@;
                proof {
                    assert(spec_str_body(v@, i + 1 as int) == Some((content_v, e as int)));
                    assert(spec_strs_elems(v@, i as int, first) == spec_strs_after(
                        v@,
                        e as int,
                        content_v,
                    ));
                }
                let x = string_from_chars(&content);
                match strs_comma(v, e) {
                    Some(q) => {
                        let (mut rest, e2) = q;
                        let ghost r0 = rest.deep_view();
                        rest.insert(0, x);
                        proof {
                            assert(rest.deep_view() =~= seq![content_v].add(r0));
                        }
                        Some((rest, e2))
                    },
                    None => None,
                }
            },
            None => None,
        }
    } else {
        None
    }
}

fn strs_comma(v: &Vec<char>, i: usize) -> (r: Option<(Vec<String>, usize)>)
    ensures
        match r {
            Some(p) => spec_strs_comma(v@, i as int) == Some((p.0.deep_view(), p.1 as int)) && i
                < p.1 <= v.len(),
            None => spec_strs_comma(v@, i as int) is None,
        },
    decreases v.len() - i, 0int,
{
    if !(i < v.len()) {
        return None;
    }
    let c = v[i];
    if c == ' ' || c == '\t' || c == '\n' || c == '\r' {
        strs_comma(v, i + 1)
    } else if c == ',' {
        strs_elems(v, i + 1, false)
    } else if c == ']' {
        let empty: Vec<String> = Vec::new();
        proof {
            assert(empty.deep_view() =~= Seq::<Seq<char>>::empty());
        }
        Some((empty, i + 1))
    } else {
        None
    }
}

fn str_array(v: &Vec<char>, i: usize) -> (r: Option<Vec<String>>)
    ensures
        match r {
            Some(p) => spec_str_array(v@, i as int) == Some(p.deep_view()),
            None => spec_str_array(v@, i as int) is None,
        },
{
    if i < v.len() && v[i] == '[' {
        match strs_elems(v, i + 1, true) {
            Some(p) => Some(p.0),
            None => None,
        }
    } else {
        None
    }
}

/// Read one room record; mirrors [`spec_room_info`].
fn room_info_at(v: &Vec<char>, i: usize) -> (r: Option<RoomInfo>)
    ensures
        match r {
            Some(info) => spec_room_info(v@, i as int) == Some(info@),
            None => spec_room_info(v@, i as int) is None,
        },
{
    if !(i < v.len() && v[i] == '{') {
        return None;
    }
    let ms = match members(v, i + 1, true) {
        Some(p) => p.0,
        None => {
            return None;
        },
    };
    let server = match req_str_of(&ms, "server") {
        Some(x) => x,
        None => {
            return None;
        },
    };
    let viewer_count = match req_usize_of(&ms, "viewer_count") {
        Some(x) => x,
        None => {
            return None;
        },
    };
    let q = match get_field(&ms, "viewers") {
        Some(Prim::PSpan(q)) => *q,
        _ => {
            return None;
        },
    };
    let os = match req_str_of(&ms, "os") {
        Some(x) => x,
        None => {
            return None;
        },
    };
    let version = match req_str_of(&ms, "version") {
        Some(x) => x,
        None => {
            return None;
        },
    };
    let name = match req_str_of(&ms, "name") {
        Some(x) => x,
        None => {
            return None;
        },
    };
    let control = match req_bool_of(&ms, "control") {
        Some(x) => x,
        None => {
            return None;
        },
    };
    let viewers = match str_array(v, q) {
        Some(x) => x,
        None => {
            return None;
        },
    };
    Some(RoomInfo { server, viewer_count, viewers, os, version, name, control })
}

/// Read the room map; mirrors [`interp_rooms`], walking the members from
/// index `k` on.
fn interp_rooms_of(v: &Vec<char>, ms: &Vec<Member>, k: usize) -> (r: Option<
    Vec<(String, RoomInfo)>,
>)
    requires
        k <= ms@.len(),
    ensures
        match r {
            Some(p) => interp_rooms(v@, ms.deep_view().skip(k as int)) == Some(p.deep_view()),
            None => interp_rooms(v@, ms.deep_view().skip(k as int)) is None,
        },
    decreases ms@.len() - k,
{
    let ghost tail = ms.deep_view().skip(k as int);
    if k == ms.len() {
        proof {
            assert(tail =~= Seq::<MemberV>::empty());
        }
        let empty: Vec<(String, RoomInfo)> = Vec::new();
        proof {
            assert(empty.deep_view() =~= Seq::<(Seq<char>, RoomInfoV)>::empty());
        }
        return Some(empty);
    }
    proof {
        assert(tail[0] == ms.deep_view()[k as int]);
        assert(tail.drop_first() =~= ms.deep_view().skip(k + 1));
    }
    let q = match &ms[k].val {
        Prim::PSpan(q) => *q,
        _ => {
            return None;
        },
    };
    let info = match room_info_at(v, q) {
        Some(info) => info,
        None => {
            return None;
        },
    };
    let ghost info_v = info@;
    match interp_rooms_of(v, ms, k + 1) {
        Some(mut rest) => {
            let key = ms[k].key.clone();
            let ghost key_v = key@;
            rest.insert(0, (key, info));
            proof {
                assert(rest.deep_view() =~= seq![(key_v, info_v)].add(
                    rest.deep_view().drop_first(),
                ));
            }
            Some(rest)
        },
        None => None,
    }
}

fn rooms_obj(v: &Vec<char>, i: usize) -> (r: Option<Vec<(String, RoomInfo)>>)
    ensures
        match r {
            Some(p) => spec_rooms_obj(v@, i as int) == Some(p.deep_view()),
            None => spec_rooms_obj(v@, i as int) is None,
        },
{
    if !(i < v.len() && v[i] == '{') {
        return None;
    }
    match members(v, i + 1, true) {
        Some(p) => {
            let ms = p.0;
            proof {
                assert(ms.deep_view().skip(0) =~= ms.deep_view());
            }
            interp_rooms_of(v, &ms, 0)
        },
        None => None,
    }
}

/// Build the message from the top-level members; mirrors
/// [`spec_msg_of_members`].
#[verifier::rlimit(100)]
#[verifier::spinoff_prover]
fn msg_of_members(v: &Vec<char>, ms: &Vec<Member>) -> (r: Option<SignallerMessage>)
    ensures
        match r {
            Some(m) => spec_msg_of_members(v@, ms.deep_view()) == Some(m@),
            None => spec_msg_of_members(v@, ms.deep_view()) is None,
        },
{
    let t = match req_str_of(ms, "type") {
        Some(t) => t,
        None => {
            return None;
        },
    };
    if str_eq(t.as_str(), "offer") {
        match (req_str_of(ms, "from"), req_str_of(ms, "to")) {
            (Some(from), Some(to)) => Some(SignallerMessage::Offer { from, to }),
            _ => None,
        }
    } else if str_eq(t.as_str(), "answer") {
        match (req_str_of(ms, "from"), req_str_of(ms, "to")) {
            (Some(from), Some(to)) => Some(SignallerMessage::Answer { from, to }),
            _ => None,
        }
    } else if str_eq(t.as_str(), "ice") {
        match (req_str_of(ms, "from"), req_str_of(ms, "to")) {
            (Some(from), Some(to)) => Some(SignallerMessage::Ice { from, to }),
            _ => None,
        }
    } else if str_eq(t.as_str(), "join") {
        match (req_str_of(ms, "from"), req_str_of(ms, "room")) {
            (Some(from), Some(room)) => Some(SignallerMessage::Join { from, room }),
            _ => None,
        }
    } else if str_eq(t.as_str(), "join_declined") {
        match (req_str_of(ms, "to"), req_str_of(ms, "reason")) {
            (Some(to), Some(reason)) => Some(SignallerMessage::JoinDeclined { to, reason }),
            _ => None,
        }
    } else if str_eq(t.as_str(), "start") {
        match (
            req_str_of(ms, "room"),
            req_str_of(ms, "name"),
            req_str_of(ms, "os"),
            req_str_of(ms, "version"),
            req_bool_of(ms, "control"),
        ) {
            (Some(room), Some(name), Some(os), Some(version), Some(control)) => Some(
                SignallerMessage::Start { room, name, os, version, control },
            ),
            _ => None,
        }
    } else if str_eq(t.as_str(), "start_response") {
        match req_str_of(ms, "room") {
            Some(room) => Some(SignallerMessage::StartResponse { room }),
            None => None,
        }
    } else if str_eq(t.as_str(), "leave") {
        match req_str_of(ms, "from") {
            Some(from) => Some(SignallerMessage::Leave { from }),
            None => None,
        }
    } else if str_eq(t.as_str(), "server_closed") {
        match (req_str_of(ms, "to"), req_str_of(ms, "room")) {
            (Some(to), Some(room)) => Some(SignallerMessage::ServerClosed { to, room }),
            _ => None,
        }
    } else if str_eq(t.as_str(), "keep_alive") {
        Some(SignallerMessage::KeepAlive)
    } else if str_eq(t.as_str(), "ice_servers") {
        Some(SignallerMessage::IceServers)
    } else if str_eq(t.as_str(), "ice_servers_response") {
        let q = match get_field(ms, "ice_servers") {
            Some(Prim::PSpan(q)) => *q,
            _ => {
                return None;
            },
        };
        match ice_array(v, q) {
            Some(ice_servers) => Some(SignallerMessage::IceServersResponse { ice_servers }),
            None => None,
        }
    } else if str_eq(t.as_str(), "get_room_list") {
        match (
            opt_str_of(ms, "os"),
            opt_str_of(ms, "name"),
            opt_str_of(ms, "version"),
            opt_str_of(ms, "server"),
            opt_str_of(ms, "sort"),
            opt_bool_of(ms, "control"),
            opt_usize_of(ms, "page"),
            opt_usize_of(ms, "per_page"),
        ) {
            (
                Some(os),
                Some(name),
                Some(version),
                Some(server),
                Some(sort),
                Some(control),
                Some(page),
                Some(per_page),
            ) => Some(
                SignallerMessage::GetRoomList {
                    os,
                    name,
                    version,
                    server,
                    sort,
                    control,
                    page,
                    per_page,
                },
            ),
            _ => None,
        }
    } else if str_eq(t.as_str(), "room_list_response") {
        let q = match get_field(ms, "rooms") {
            Some(Prim::PSpan(q)) => *q,
            _ => {
                return None;
            },
        };
        match (rooms_obj(v, q), req_usize_of(ms, "total_count"), opt_usize_of(ms, "page"),
        opt_usize_of(ms, "per_page")) {
            (Some(rooms), Some(total_count), Some(page), Some(per_page)) => Some(
                SignallerMessage::RoomListResponse { rooms, total_count, page, per_page },
            ),
            _ => None,
        }
    } else if str_eq(t.as_str(), "subscribe_room_updates") {
        Some(SignallerMessage::SubscribeRoomUpdates)
    } else if str_eq(t.as_str(), "unsubscribe_room_updates") {
        Some(SignallerMessage::UnsubscribeRoomUpdates)
    } else if str_eq(t.as_str(), "new_room_notification") {
        match req_str_of(ms, "room") {
            Some(room) => Some(SignallerMessage::NewRoomNotification { room }),
            None => None,
        }
    } else {
        None
    }
}

/// Decode one text frame.  Fails with `MalformedFrame` exactly when
/// [`spec_decode`] yields nothing: on JSON errors, an unknown `type`, or a
/// missing or ill-typed required field.
pub fn decode_message(text: &str) -> (r: Result<SignallerMessage, SignalError>)
    ensures
        match r {
            Ok(m) => spec_decode(text@) == Some(m@),
            Err(e) => e == SignalError::MalformedFrame && spec_decode(text@) is None,
        },
{
    let v = chars_of(text);
    let j = ws_to(&v, 0);
    if !(j < v.len()) {
        return Err(SignalError::MalformedFrame);
    }
    if v[j] != '{' {
        return Err(SignalError::MalformedFrame);
    }
    let (ms, e) = match members(&v, j + 1, true) {
        Some(p) => p,
        None => {
            return Err(SignalError::MalformedFrame);
        },
    };
    let tail = ws_to(&v, e);
    if tail != v.len() {
        return Err(SignalError::MalformedFrame);
    }
    match msg_of_members(&v, &ms) {
        Some(m) => Ok(m),
        None => Err(SignalError::MalformedFrame),
    }
}

/// The decimal digit character for `d < 10`, and the hex digit character
/// for `d < 16`.
pub open spec fn digit_ch(d: nat) -> char {
    if d < 10 {
        (48 + d) as char
    } else {
        (87 + d) as char
    }
}

/// How one character is written inside a JSON string: quotes and
/// backslashes escaped, control characters named or written as `\u00XX`,
/// everything else verbatim.
pub open spec fn esc_char(c: char) -> Seq<char> {
    if c == '"' {
        seq!['\\', '"']
    } else if c == '\\' {
        seq!['\\', '\\']
    } else if c == '\u{8}' {
        seq!['\\', 'b']
    } else if c == '\u{c}' {
        seq!['\\', 'f']
    } else if c == '\n' {
        seq!['\\', 'n']
    } else if c == '\r' {
        seq!['\\', 'r']
    } else if c == '\t' {
        seq!['\\', 't']
    } else if (c as u32) < 0x20 {
        seq!['\\', 'u', '0', '0', digit_ch((c as u32 / 16) as nat), digit_ch((c as u32 % 16) as nat)]
    } else {
        seq![c]
    }
}

/// A string's characters, escaped.
pub open spec fn esc(s: Seq<char>) -> Seq<char>
    decreases s.len(),
{
    if s.len() == 0 {
        Seq::empty()
    } else {
        esc_char(s[0]).add(esc(s.drop_first()))
    }
}

pub proof fn lemma_esc_snoc(s: Seq<char>, c: char)
    ensures
        esc(s.push(c)) == esc(s).add(esc_char(c)),
    decreases s.len(),
{
    if s.len() == 0 {
        assert(s.push(c)[0] == c);
        assert(s.push(c).drop_first() =~= Seq::<char>::empty());
        assert(esc(s.push(c)) == esc_char(c).add(esc(Seq::<char>::empty())));
        assert(esc_char(c).add(Seq::<char>::empty()) =~= esc_char(c));
        assert(esc(s) =~= Seq::<char>::empty());
        assert(esc(s).add(esc_char(c)) =~= esc_char(c));
    } else {
        assert(s.push(c).drop_first() =~= s.drop_first().push(c));
        lemma_esc_snoc(s.drop_first(), c);
        assert(esc(s.push(c)) =~= esc(s).add(esc_char(c)));
    }
}

/// Attaching one more segment on the right re-associates freely.
pub proof fn lemma_cat_step(o: Seq<char>, p: Seq<char>, x: Seq<char>)
    ensures
        o.add(p).add(x) == o.add(p.add(x)),
{
    assert(o.add(p).add(x) =~= o.add(p.add(x)));
}

/// A string as JSON writes it.
pub open spec fn enc_str(s: Seq<char>) -> Seq<char> {
    seq!['"'].add(esc(s)).add(seq!['"'])
}

/// A nonnegative integer in decimal.
pub open spec fn dec_digits(n: nat) -> Seq<char>
    decreases n,
{
    if n < 10 {
        seq![digit_ch(n)]
    } else {
        dec_digits(n / 10).push(digit_ch(n % 10))
    }
}

/// A fixed plain token (a key or a discriminator), quoted verbatim.
pub open spec fn enc_key(k: Seq<char>) -> Seq<char> {
    seq!['"'].add(k).add(seq!['"'])
}

/// A quoted key followed by its colon.
pub open spec fn fld(k: Seq<char>) -> Seq<char> {
    enc_key(k).add(seq![':'])
}

pub open spec fn enc_bool(b: bool) -> Seq<char> {
    if b {
        seq!['t', 'r', 'u', 'e']
    } else {
        seq!['f', 'a', 'l', 's', 'e']
    }
}

pub open spec fn enc_null() -> Seq<char> {
    seq!['n', 'u', 'l', 'l']
}

pub open spec fn enc_opt_str(o: Option<Seq<char>>) -> Seq<char> {
    match o {
        None => enc_null(),
        Some(s) => enc_str(s),
    }
}

pub open spec fn enc_opt_bool(o: Option<bool>) -> Seq<char> {
    match o {
        None => enc_null(),
        Some(b) => enc_bool(b),
    }
}

pub open spec fn enc_opt_usize(o: Option<usize>) -> Seq<char> {
    match o {
        None => enc_null(),
        Some(n) => dec_digits(n as nat),
    }
}

/// One ICE server record as JSON.
pub open spec fn enc_ice(s: IceServerV) -> Seq<char> {
    seq!['{'].add(fld("url"@)).add(enc_str(s.url)).add(seq![',']).add(fld("username"@)).add(
        enc_str(s.username),
    ).add(seq![',']).add(fld("password"@)).add(enc_str(s.password)).add(seq!['}'])
}

pub open spec fn enc_ice_items(l: Seq<IceServerV>) -> Seq<char>
    decreases l.len(),
{
    if l.len() == 0 {
        Seq::empty()
    } else if l.len() == 1 {
        enc_ice(l[0])
    } else {
        enc_ice(l[0]).add(seq![',']).add(enc_ice_items(l.drop_first()))
    }
}

pub open spec fn enc_str_items(l: Seq<Seq<char>>) -> Seq<char>
    decreases l.len(),
{
    if l.len() == 0 {
        Seq::empty()
    } else if l.len() == 1 {
        enc_str(l[0])
    } else {
        enc_str(l[0]).add(seq![',']).add(enc_str_items(l.drop_first()))
    }
}

/// One room record as JSON.
pub open spec fn enc_room_info(r: RoomInfoV) -> Seq<char> {
    seq!['{'].add(fld("server"@)).add(enc_str(r.server)).add(seq![',']).add(
        fld("viewer_count"@),
    ).add(dec_digits(r.viewer_count as nat)).add(seq![',']).add(fld("viewers"@)).add(
        seq!['['],
    ).add(enc_str_items(r.viewers)).add(seq![']']).add(seq![',']).add(fld("os"@)).add(
        enc_str(r.os),
    ).add(seq![',']).add(fld("version"@)).add(enc_str(r.version)).add(seq![',']).add(
        fld("name"@),
    ).add(enc_str(r.name)).add(seq![',']).add(fld("control"@)).add(enc_bool(r.control)).add(
        seq!['}'],
    )
}

pub open spec fn enc_room_items(l: Seq<(Seq<char>, RoomInfoV)>) -> Seq<char>
    decreases l.len(),
{
    if l.len() == 0 {
        Seq::empty()
    } else if l.len() == 1 {
        enc_str(l[0].0).add(seq![':']).add(enc_room_info(l[0].1))
    } else {
        enc_str(l[0].0).add(seq![':']).add(enc_room_info(l[0].1)).add(seq![',']).add(
            enc_room_items(l.drop_first()),
        )
    }
}

/// What [`encode_message`] writes: the discriminator first, then the
/// payload fields in declaration order, absent options as `null`.
pub open spec fn spec_encode(m: MsgV) -> Seq<char> {
    match m {
        MsgV::Offer { from, to } => seq!['{'].add(
            fld("type"@),
        ).add(
            enc_key("offer"@),
        ).add(
            seq![','],
        ).add(
            fld("from"@),
        ).add(
            enc_str(from),
        ).add(
            seq![','],
        ).add(
            fld("to"@),
        ).add(
            enc_str(to),
        ).add(
            seq!['}'],
        ),
        MsgV::Answer { from, to } => seq!['{'].add(
            fld("type"@),
        ).add(
            enc_key("answer"@),
        ).add(
            seq![','],
        ).add(
            fld("from"@),
        ).add(
            enc_str(from),
        ).add(
            seq![','],
        ).add(
            fld("to"@),
        ).add(
            enc_str(to),
        ).add(
            seq!['}'],
        ),
        MsgV::Ice { from, to } => seq!['{'].add(
            fld("type"@),
        ).add(
            enc_key("ice"@),
        ).add(
            seq![','],
        ).add(
            fld("from"@),
        ).add(
            enc_str(from),
        ).add(
            seq![','],
        ).add(
            fld("to"@),
        ).add(
            enc_str(to),
        ).add(
            seq!['}'],
        ),
        MsgV::Join { from, room } => seq!['{'].add(
            fld("type"@),
        ).add(
            enc_key("join"@),
        ).add(
            seq![','],
        ).add(
            fld("from"@),
        ).add(
            enc_str(from),
        ).add(
            seq![','],
        ).add(
            fld("room"@),
        ).add(
            enc_str(room),
        ).add(
            seq!['}'],
        ),
        MsgV::JoinDeclined { to, reason } => seq!['{'].add(
            fld("type"@),
        ).add(
            enc_key("join_declined"@),
        ).add(
            seq![','],
        ).add(
            fld("to"@),
        ).add(
            enc_str(to),
        ).add(
            seq![','],
        ).add(
            fld("reason"@),
        ).add(
            enc_str(reason),
        ).add(
            seq!['}'],
        ),
        MsgV::Start { room, name, os, version, control } => seq!['{'].add(
            fld("type"@),
        ).add(
            enc_key("start"@),
        ).add(
            seq![','],
        ).add(
            fld("room"@),
        ).add(
            enc_str(room),
        ).add(
            seq![','],
        ).add(
            fld("name"@),
        ).add(
            enc_str(name),
        ).add(
            seq![','],
        ).add(
            fld("os"@),
        ).add(
            enc_str(os),
        ).add(
            seq![','],
        ).add(
            fld("version"@),
        ).add(
            enc_str(version),
        ).add(
            seq![','],
        ).add(
            fld("control"@),
        ).add(
            enc_bool(control),
        ).add(
            seq!['}'],
        ),
        MsgV::StartResponse { room } => seq!['{'].add(
            fld("type"@),
        ).add(
            enc_key("start_response"@),
        ).add(
            seq![','],
        ).add(
            fld("room"@),
        ).add(
            enc_str(room),
        ).add(
            seq!['}'],
        ),
        MsgV::Leave { from } => seq!['{'].add(
            fld("type"@),
        ).add(
            enc_key("leave"@),
        ).add(
            seq![','],
        ).add(
            fld("from"@),
        ).add(
            enc_str(from),
        ).add(
            seq!['}'],
        ),
        MsgV::ServerClosed { to, room } => seq!['{'].add(
            fld("type"@),
        ).add(
            enc_key("server_closed"@),
        ).add(
            seq![','],
        ).add(
            fld("to"@),
        ).add(
            enc_str(to),
        ).add(
            seq![','],
        ).add(
            fld("room"@),
        ).add(
            enc_str(room),
        ).add(
            seq!['}'],
        ),
        MsgV::KeepAlive => seq!['{'].add(
            fld("type"@),
        ).add(
            enc_key("keep_alive"@),
        ).add(
            seq!['}'],
        ),
        MsgV::IceServers => seq!['{'].add(
            fld("type"@),
        ).add(
            enc_key("ice_servers"@),
        ).add(
            seq!['}'],
        ),
        MsgV::IceServersResponse { ice_servers } => seq!['{'].add(
            fld("type"@),
        ).add(
            enc_key("ice_servers_response"@),
        ).add(
            seq![','],
        ).add(
            fld("ice_servers"@),
        ).add(
            seq!['['],
        ).add(
            enc_ice_items(ice_servers),
        ).add(
            seq![']'],
        ).add(
            seq!['}'],
        ),
        MsgV::GetRoomList { os, name, version, server, sort, control, page, per_page } => seq!['{'].add(
            fld("type"@),
        ).add(
            enc_key("get_room_list"@),
        ).add(
            seq![','],
        ).add(
            fld("os"@),
        ).add(
            enc_opt_str(os),
        ).add(
            seq![','],
        ).add(
            fld("name"@),
        ).add(
            enc_opt_str(name),
        ).add(
            seq![','],
        ).add(
            fld("version"@),
        ).add(
            enc_opt_str(version),
        ).add(
            seq![','],
        ).add(
            fld("server"@),
        ).add(
            enc_opt_str(server),
        ).add(
            seq![','],
        ).add(
            fld("sort"@),
        ).add(
            enc_opt_str(sort),
        ).add(
            seq![','],
        ).add(
            fld("control"@),
        ).add(
            enc_opt_bool(control),
        ).add(
            seq![','],
        ).add(
            fld("page"@),
        ).add(
            enc_opt_usize(page),
        ).add(
            seq![','],
        ).add(
            fld("per_page"@),
        ).add(
            enc_opt_usize(per_page),
        ).add(
            seq!['}'],
        ),
        MsgV::RoomListResponse { rooms, total_count, page, per_page } => seq!['{'].add(
            fld("type"@),
        ).add(
            enc_key("room_list_response"@),
        ).add(
            seq![','],
        ).add(
            fld("rooms"@),
        ).add(
            seq!['{'],
        ).add(
            enc_room_items(rooms),
        ).add(
            seq!['}'],
        ).add(
            seq![','],
        ).add(
            fld("total_count"@),
        ).add(
            dec_digits(total_count as nat),
        ).add(
            seq![','],
        ).add(
            fld("page"@),
        ).add(
            enc_opt_usize(page),
        ).add(
            seq![','],
        ).add(
            fld("per_page"@),
        ).add(
            enc_opt_usize(per_page),
        ).add(
            seq!['}'],
        ),
        MsgV::SubscribeRoomUpdates => seq!['{'].add(
            fld("type"@),
        ).add(
            enc_key("subscribe_room_updates"@),
        ).add(
            seq!['}'],
        ),
        MsgV::UnsubscribeRoomUpdates => seq!['{'].add(
            fld("type"@),
        ).add(
            enc_key("unsubscribe_room_updates"@),
        ).add(
            seq!['}'],
        ),
        MsgV::NewRoomNotification { room } => seq!['{'].add(
            fld("type"@),
        ).add(
            enc_key("new_room_notification"@),
        ).add(
            seq![','],
        ).add(
            fld("room"@),
        ).add(
            enc_str(room),
        ).add(
            seq!['}'],
        ),
    }
}

/// Append one character.
fn push_ch(out: &mut Vec<char>, c: char)
    ensures
        final(out)@ == old(out)@ + seq![c],
{
    out.push(c);
    proof {
        assert(final(out)@ =~= old(out)@ + seq![c]);
    }
}

/// Append a plain token, quoted.
fn push_key(out: &mut Vec<char>, k: &str)
    ensures
        final(out)@ == old(out)@ + enc_key(k@),
{
    out.push('"');
    let mut cs = chars_of(k);
    out.append(&mut cs);
    out.push('"');
    proof {
        assert(final(out)@ =~= old(out)@ + enc_key(k@));
    }
}

/// Append a quoted key and its colon.
fn push_fld(out: &mut Vec<char>, k: &str)
    ensures
        final(out)@ == old(out)@ + fld(k@),
{
    let ghost o0 = out@;
    push_key(out, k);
    push_ch(out, ':');
    proof {
        assert(final(out)@ =~= o0 + fld(k@));
    }
}

fn digit_ch_of(d: u32) -> (r: char)
    requires
        d < 16,
    ensures
        r == digit_ch(d as nat),
{
    let u: u32 = if d < 10 {
        48 + d
    } else {
        87 + d
    };
    match crate::json::char_from_u32(u) {
        Some(c) => c,
        None => ' ',  // unreachable: 48..=57 and 97..=102 are scalar values
    }
}

/// Append one character, escaped.
fn push_esc_char(out: &mut Vec<char>, c: char)
    ensures
        final(out)@ == old(out)@ + esc_char(c),
{
    if c == '"' {
        out.push('\\');
        out.push('"');
    } else if c == '\\' {
        out.push('\\');
        out.push('\\');
    } else if c == '\u{8}' {
        out.push('\\');
        out.push('b');
    } else if c == '\u{c}' {
        out.push('\\');
        out.push('f');
    } else if c == '\n' {
        out.push('\\');
        out.push('n');
    } else if c == '\r' {
        out.push('\\');
        out.push('r');
    } else if c == '\t' {
        out.push('\\');
        out.push('t');
    } else if (c as u32) < 0x20 {
        out.push('\\');
        out.push('u');
        out.push('0');
        out.push('0');
        out.push(digit_ch_of(c as u32 / 16));
        out.push(digit_ch_of(c as u32 % 16));
    } else {
        out.push(c);
    }
    proof {
        assert(final(out)@ =~= old(out)@ + esc_char(c));
    }
}

/// Append a string, quoted and escaped.
fn push_str_enc(out: &mut Vec<char>, s: &str)
    ensures
        final(out)@ == old(out)@ + enc_str(s@),
{
    out.push('"');
    let cs = chars_of(s);
    let mut i: usize = 0;
    proof {
        assert(s@.subrange(0, 0) =~= Seq::<char>::empty());
    }
    while i < cs.len()
        invariant
            i <= cs@.len(),
            cs@ == s@,
            out@ == old(out)@ + seq!['"'] + esc(s@.subrange(0, i as int)),
        decreases cs@.len() - i,
    {
        push_esc_char(out, cs[i]);
        proof {
            assert(s@.subrange(0, i + 1 as int) =~= s@.subrange(0, i as int).push(s@[i as int]));
            lemma_esc_snoc(s@.subrange(0, i as int), s@[i as int]);
        }
        i = i + 1;
    }
    out.push('"');
    proof {
        assert(s@.subrange(0, s@.len() as int) =~= s@);
        assert(final(out)@ =~= old(out)@ + enc_str(s@));
    }
}

/// Append a nonnegative integer in decimal.
fn push_dec(out: &mut Vec<char>, n: u64)
    ensures
        final(out)@ == old(out)@ + dec_digits(n as nat),
    decreases n,
{
    if n < 10 {
        out.push(digit_ch_of(n as u32));
        proof {
            assert(final(out)@ =~= old(out)@ + dec_digits(n as nat));
        }
    } else {
        push_dec(out, n / 10);
        out.push(digit_ch_of((n % 10) as u32));
        proof {
            assert((n as nat) / 10 == (n / 10) as nat);
            assert(final(out)@ =~= old(out)@ + dec_digits(n as nat));
        }
    }
}

fn push_bool(out: &mut Vec<char>, b: bool)
    ensures
        final(out)@ == old(out)@ + enc_bool(b),
{
    if b {
        out.push('t');
        out.push('r');
        out.push('u');
        out.push('e');
    } else {
        out.push('f');
        out.push('a');
        out.push('l');
        out.push('s');
        out.push('e');
    }
    proof {
        assert(final(out)@ =~= old(out)@ + enc_bool(b));
    }
}

fn push_null(out: &mut Vec<char>)
    ensures
        final(out)@ == old(out)@ + enc_null(),
{
    out.push('n');
    out.push('u');
    out.push('l');
    out.push('l');
    proof {
        assert(final(out)@ =~= old(out)@ + enc_null());
    }
}

fn push_opt_str(out: &mut Vec<char>, o: &Option<String>)
    ensures
        final(out)@ == old(out)@ + enc_opt_str(o.deep_view()),
{
    match o {
        None => push_null(out),
        Some(s) => push_str_enc(out, s.as_str()),
    }
}

fn push_opt_bool(out: &mut Vec<char>, o: &Option<bool>)
    ensures
        final(out)@ == old(out)@ + enc_opt_bool(*o),
{
    match o {
        None => push_null(out),
        Some(b) => push_bool(out, *b),
    }
}

fn push_opt_usize(out: &mut Vec<char>, o: &Option<usize>)
    ensures
        final(out)@ == old(out)@ + enc_opt_usize(*o),
{
    match o {
        None => push_null(out),
        Some(n) => push_dec(out, *n as u64),
    }
}

fn push_ice(out: &mut Vec<char>, s: &IceServer)
    ensures
        final(out)@ == old(out)@ + enc_ice(s@),
{
    let ghost o0 = out@;
    let ghost mut acc: Seq<char> = Seq::empty();
    proof {
        assert(o0.add(acc) =~= o0);
    }
    push_ch(out, '{');
    proof {
        lemma_cat_step(o0, acc, seq!['{']);
        acc = acc.add(seq!['{']);
        assert(out@ == o0.add(acc));
    }
    push_fld(out, "url");
    proof {
        lemma_cat_step(o0, acc, fld("url"@));
        acc = acc.add(fld("url"@));
        assert(out@ == o0.add(acc));
    }
    push_str_enc(out, s.url.as_str());
    proof {
        lemma_cat_step(o0, acc, enc_str(s.url@));
        acc = acc.add(enc_str(s.url@));
        assert(out@ == o0.add(acc));
    }
    push_ch(out, ',');
    proof {
        lemma_cat_step(o0, acc, seq![',']);
        acc = acc.add(seq![',']);
        assert(out@ == o0.add(acc));
    }
    push_fld(out, "username");
    proof {
        lemma_cat_step(o0, acc, fld("username"@));
        acc = acc.add(fld("username"@));
        assert(out@ == o0.add(acc));
    }
    push_str_enc(out, s.username.as_str());
    proof {
        lemma_cat_step(o0, acc, enc_str(s.username@));
        acc = acc.add(enc_str(s.username@));
        assert(out@ == o0.add(acc));
    }
    push_ch(out, ',');
    proof {
        lemma_cat_step(o0, acc, seq![',']);
        acc = acc.add(seq![',']);
        assert(out@ == o0.add(acc));
    }
    push_fld(out, "password");
    proof {
        lemma_cat_step(o0, acc, fld("password"@));
        acc = acc.add(fld("password"@));
        assert(out@ == o0.add(acc));
    }
    push_str_enc(out, s.password.as_str());
    proof {
        lemma_cat_step(o0, acc, enc_str(s.password@));
        acc = acc.add(enc_str(s.password@));
        assert(out@ == o0.add(acc));
    }
    push_ch(out, '}');
    proof {
        lemma_cat_step(o0, acc, seq!['}']);
        acc = acc.add(seq!['}']);
        assert(out@ == o0.add(acc));
    }
    proof {
        assert(acc == enc_ice(s@));
    }
}
fn push_ice_items(out: &mut Vec<char>, l: &Vec<IceServer>, k: usize)
    requires
        k <= l@.len(),
    ensures
        final(out)@ == old(out)@ + enc_ice_items(l.deep_view().skip(k as int)),
    decreases l@.len() - k,
{
    let ghost tail = l.deep_view().skip(k as int);
    if k == l.len() {
        proof {
            assert(tail =~= Seq::<IceServerV>::empty());
            assert(final(out)@ =~= old(out)@ + enc_ice_items(tail));
        }
        return ;
    }
    proof {
        assert(tail[0] == l.deep_view()[k as int]);
        assert(tail.drop_first() =~= l.deep_view().skip(k + 1));
    }
    push_ice(out, &l[k]);
    if k + 1 < l.len() {
        push_ch(out, ',');
        push_ice_items(out, l, k + 1);
        proof {
            assert(final(out)@ =~= old(out)@ + enc_ice_items(tail));
        }
    } else {
        proof {
            assert(tail.len() == 1);
            assert(final(out)@ =~= old(out)@ + enc_ice_items(tail));
        }
    }
}

fn push_str_items(out: &mut Vec<char>, l: &Vec<String>, k: usize)
    requires
        k <= l@.len(),
    ensures
        final(out)@ == old(out)@ + enc_str_items(l.deep_view().skip(k as int)),
    decreases l@.len() - k,
{
    let ghost tail = l.deep_view().skip(k as int);
    if k == l.len() {
        proof {
            assert(tail =~= Seq::<Seq<char>>::empty());
            assert(final(out)@ =~= old(out)@ + enc_str_items(tail));
        }
        return ;
    }
    proof {
        assert(tail[0] == l.deep_view()[k as int]);
        assert(tail.drop_first() =~= l.deep_view().skip(k + 1));
    }
    push_str_enc(out, l[k].as_str());
    if k + 1 < l.len() {
        push_ch(out, ',');
        push_str_items(out, l, k + 1);
        proof {
            assert(final(out)@ =~= old(out)@ + enc_str_items(tail));
        }
    } else {
        proof {
            assert(tail.len() == 1);
            assert(final(out)@ =~= old(out)@ + enc_str_items(tail));
        }
    }
}

fn push_room_info(out: &mut Vec<char>, r: &RoomInfo)
    ensures
        final(out)@ == old(out)@ + enc_room_info(r@),
{
    let ghost o0 = out@;
    let ghost mut acc: Seq<char> = Seq::empty();
    proof {
        assert(o0.add(acc) =~= o0);
    }
    push_ch(out, '{');
    proof {
        lemma_cat_step(o0, acc, seq!['{']);
        acc = acc.add(seq!['{']);
        assert(out@ == o0.add(acc));
    }
    push_fld(out, "server");
    proof {
        lemma_cat_step(o0, acc, fld("server"@));
        acc = acc.add(fld("server"@));
        assert(out@ == o0.add(acc));
    }
    push_str_enc(out, r.server.as_str());
    proof {
        lemma_cat_step(o0, acc, enc_str(r.server@));
        acc = acc.add(enc_str(r.server@));
        assert(out@ == o0.add(acc));
    }
    push_ch(out, ',');
    proof {
        lemma_cat_step(o0, acc, seq![',']);
        acc = acc.add(seq![',']);
        assert(out@ == o0.add(acc));
    }
    push_fld(out, "viewer_count");
    proof {
        lemma_cat_step(o0, acc, fld("viewer_count"@));
        acc = acc.add(fld("viewer_count"@));
        assert(out@ == o0.add(acc));
    }
    push_dec(out, r.viewer_count as u64);
    proof {
        lemma_cat_step(o0, acc, dec_digits(r.viewer_count as nat));
        acc = acc.add(dec_digits(r.viewer_count as nat));
        assert(out@ == o0.add(acc));
    }
    push_ch(out, ',');
    proof {
        lemma_cat_step(o0, acc, seq![',']);
        acc = acc.add(seq![',']);
        assert(out@ == o0.add(acc));
    }
    push_fld(out, "viewers");
    proof {
        lemma_cat_step(o0, acc, fld("viewers"@));
        acc = acc.add(fld("viewers"@));
        assert(out@ == o0.add(acc));
    }
    push_ch(out, '[');
    proof {
        lemma_cat_step(o0, acc, seq!['[']);
        acc = acc.add(seq!['[']);
        assert(out@ == o0.add(acc));
    }
    proof {
        assert(r.viewers.deep_view().skip(0) =~= r.viewers.deep_view());
    }
    push_str_items(out, &r.viewers, 0);
    proof {
        lemma_cat_step(o0, acc, enc_str_items(r.viewers.deep_view()));
        acc = acc.add(enc_str_items(r.viewers.deep_view()));
        assert(out@ == o0.add(acc));
    }
    push_ch(out, ']');
    proof {
        lemma_cat_step(o0, acc, seq![']']);
        acc = acc.add(seq![']']);
        assert(out@ == o0.add(acc));
    }
    push_ch(out, ',');
    proof {
        lemma_cat_step(o0, acc, seq![',']);
        acc = acc.add(seq![',']);
        assert(out@ == o0.add(acc));
    }
    push_fld(out, "os");
    proof {
        lemma_cat_step(o0, acc, fld("os"@));
        acc = acc.add(fld("os"@));
        assert(out@ == o0.add(acc));
    }
    push_str_enc(out, r.os.as_str());
    proof {
        lemma_cat_step(o0, acc, enc_str(r.os@));
        acc = acc.add(enc_str(r.os@));
        assert(out@ == o0.add(acc));
    }
    push_ch(out, ',');
    proof {
        lemma_cat_step(o0, acc, seq![',']);
        acc = acc.add(seq![',']);
        assert(out@ == o0.add(acc));
    }
    push_fld(out, "version");
    proof {
        lemma_cat_step(o0, acc, fld("version"@));
        acc = acc.add(fld("version"@));
        assert(out@ == o0.add(acc));
    }
    push_str_enc(out, r.version.as_str());
    proof {
        lemma_cat_step(o0, acc, enc_str(r.version@));
        acc = acc.add(enc_str(r.version@));
        assert(out@ == o0.add(acc));
    }
    push_ch(out, ',');
    proof {
        lemma_cat_step(o0, acc, seq![',']);
        acc = acc.add(seq![',']);
        assert(out@ == o0.add(acc));
    }
    push_fld(out, "name");
    proof {
        lemma_cat_step(o0, acc, fld("name"@));
        acc = acc.add(fld("name"@));
        assert(out@ == o0.add(acc));
    }
    push_str_enc(out, r.name.as_str());
    proof {
        lemma_cat_step(o0, acc, enc_str(r.name@));
        acc = acc.add(enc_str(r.name@));
        assert(out@ == o0.add(acc));
    }
    push_ch(out, ',');
    proof {
        lemma_cat_step(o0, acc, seq![',']);
        acc = acc.add(seq![',']);
        assert(out@ == o0.add(acc));
    }
    push_fld(out, "control");
    proof {
        lemma_cat_step(o0, acc, fld("control"@));
        acc = acc.add(fld("control"@));
        assert(out@ == o0.add(acc));
    }
    push_bool(out, r.control);
    proof {
        lemma_cat_step(o0, acc, enc_bool(r.control));
        acc = acc.add(enc_bool(r.control));
        assert(out@ == o0.add(acc));
    }
    push_ch(out, '}');
    proof {
        lemma_cat_step(o0, acc, seq!['}']);
        acc = acc.add(seq!['}']);
        assert(out@ == o0.add(acc));
    }
    proof {
        assert(acc == enc_room_info(r@));
    }
}
fn push_room_items(out: &mut Vec<char>, l: &Vec<(String, RoomInfo)>, k: usize)
    requires
        k <= l@.len(),
    ensures
        final(out)@ == old(out)@ + enc_room_items(l.deep_view().skip(k as int)),
    decreases l@.len() - k,
{
    let ghost tail = l.deep_view().skip(k as int);
    if k == l.len() {
        proof {
            assert(tail =~= Seq::<(Seq<char>, RoomInfoV)>::empty());
            assert(final(out)@ =~= old(out)@ + enc_room_items(tail));
        }
        return ;
    }
    proof {
        assert(tail[0] == l.deep_view()[k as int]);
        assert(tail.drop_first() =~= l.deep_view().skip(k + 1));
    }
    push_str_enc(out, l[k].0.as_str());
    push_ch(out, ':');
    push_room_info(out, &l[k].1);
    if k + 1 < l.len() {
        push_ch(out, ',');
        push_room_items(out, l, k + 1);
        proof {
            assert(final(out)@ =~= old(out)@ + enc_room_items(tail));
        }
    } else {
        proof {
            assert(tail.len() == 1);
            assert(final(out)@ =~= old(out)@ + enc_room_items(tail));
        }
    }
}

/// Encode one message as a JSON text frame; the output is exactly
/// [`spec_encode`] of the message.
#[verifier::rlimit(100)]
#[verifier::spinoff_prover]
pub fn encode_message(m: &SignallerMessage) -> (r: String)
    ensures
        r@ == spec_encode(m@),
{
    let mut out: Vec<char> = Vec::new();
    let ghost o0 = out@;
    let ghost mut acc: Seq<char> = Seq::empty();
    proof {
        assert(o0.add(acc) =~= o0);
        assert(o0 =~= Seq::<char>::empty());
    }
    match m {
        SignallerMessage::Offer { from, to } => {
            push_ch(&mut out, '{');
            proof {
                lemma_cat_step(o0, acc, seq!['{']);
                acc = acc.add(seq!['{']);
                assert(out@ == o0.add(acc));
            }
            push_fld(&mut out, "type");
            proof {
                lemma_cat_step(o0, acc, fld("type"@));
                acc = acc.add(fld("type"@));
                assert(out@ == o0.add(acc));
            }
            push_key(&mut out, "offer");
            proof {
                lemma_cat_step(o0, acc, enc_key("offer"@));
                acc = acc.add(enc_key("offer"@));
                assert(out@ == o0.add(acc));
            }
            push_ch(&mut out, ',');
            proof {
                lemma_cat_step(o0, acc, seq![',']);
                acc = acc.add(seq![',']);
                assert(out@ == o0.add(acc));
            }
            push_fld(&mut out, "from");
            proof {
                lemma_cat_step(o0, acc, fld("from"@));
                acc = acc.add(fld("from"@));
                assert(out@ == o0.add(acc));
            }
            push_str_enc(&mut out, from.as_str());
            proof {
                lemma_cat_step(o0, acc, enc_str(from@));
                acc = acc.add(enc_str(from@));
                assert(out@ == o0.add(acc));
            }
            push_ch(&mut out, ',');
            proof {
                lemma_cat_step(o0, acc, seq![',']);
                acc = acc.add(seq![',']);
                assert(out@ == o0.add(acc));
            }
            push_fld(&mut out, "to");
            proof {
                lemma_cat_step(o0, acc, fld("to"@));
                acc = acc.add(fld("to"@));
                assert(out@ == o0.add(acc));
            }
            push_str_enc(&mut out, to.as_str());
            proof {
                lemma_cat_step(o0, acc, enc_str(to@));
                acc = acc.add(enc_str(to@));
                assert(out@ == o0.add(acc));
            }
            push_ch(&mut out, '}');
            proof {
                lemma_cat_step(o0, acc, seq!['}']);
                acc = acc.add(seq!['}']);
                assert(out@ == o0.add(acc));
            }
            proof {
                assert(acc == spec_encode(m@));
            }
        },
        SignallerMessage::Answer { from, to } => {
            push_ch(&mut out, '{');
            proof {
                lemma_cat_step(o0, acc, seq!['{']);
                acc = acc.add(seq!['{']);
                assert(out@ == o0.add(acc));
            }
            push_fld(&mut out, "type");
            proof {
                lemma_cat_step(o0, acc, fld("type"@));
                acc = acc.add(fld("type"@));
                assert(out@ == o0.add(acc));
            }
            push_key(&mut out, "answer");
            proof {
                lemma_cat_step(o0, acc, enc_key("answer"@));
                acc = acc.add(enc_key("answer"@));
                assert(out@ == o0.add(acc));
            }
            push_ch(&mut out, ',');
            proof {
                lemma_cat_step(o0, acc, seq![',']);
                acc = acc.add(seq![',']);
                assert(out@ == o0.add(acc));
            }
            push_fld(&mut out, "from");
            proof {
                lemma_cat_step(o0, acc, fld("from"@));
                acc = acc.add(fld("from"@));
                assert(out@ == o0.add(acc));
            }
            push_str_enc(&mut out, from.as_str());
            proof {
                lemma_cat_step(o0, acc, enc_str(from@));
                acc = acc.add(enc_str(from@));
                assert(out@ == o0.add(acc));
            }
            push_ch(&mut out, ',');
            proof {
                lemma_cat_step(o0, acc, seq![',']);
                acc = acc.add(seq![',']);
                assert(out@ == o0.add(acc));
            }
            push_fld(&mut out, "to");
            proof {
                lemma_cat_step(o0, acc, fld("to"@));
                acc = acc.add(fld("to"@));
                assert(out@ == o0.add(acc));
            }
            push_str_enc(&mut out, to.as_str());
            proof {
                lemma_cat_step(o0, acc, enc_str(to@));
                acc = acc.add(enc_str(to@));
                assert(out@ == o0.add(acc));
            }
            push_ch(&mut out, '}');
            proof {
                lemma_cat_step(o0, acc, seq!['}']);
                acc = acc.add(seq!['}']);
                assert(out@ == o0.add(acc));
            }
            proof {
                assert(acc == spec_encode(m@));
            }
        },
        SignallerMessage::Ice { from, to } => {
            push_ch(&mut out, '{');
            proof {
                lemma_cat_step(o0, acc, seq!['{']);
                acc = acc.add(seq!['{']);
                assert(out@ == o0.add(acc));
            }
            push_fld(&mut out, "type");
            proof {
                lemma_cat_step(o0, acc, fld("type"@));
                acc = acc.add(fld("type"@));
                assert(out@ == o0.add(acc));
            }
            push_key(&mut out, "ice");
            proof {
                lemma_cat_step(o0, acc, enc_key("ice"@));
                acc = acc.add(enc_key("ice"@));
                assert(out@ == o0.add(acc));
            }
            push_ch(&mut out, ',');
            proof {
                lemma_cat_step(o0, acc, seq![',']);
                acc = acc.add(seq![',']);
                assert(out@ == o0.add(acc));
            }
            push_fld(&mut out, "from");
            proof {
                lemma_cat_step(o0, acc, fld("from"@));
                acc = acc.add(fld("from"@));
                assert(out@ == o0.add(acc));
            }
            push_str_enc(&mut out, from.as_str());
            proof {
                lemma_cat_step(o0, acc, enc_str(from@));
                acc = acc.add(enc_str(from@));
                assert(out@ == o0.add(acc));
            }
            push_ch(&mut out, ',');
            proof {
                lemma_cat_step(o0, acc, seq![',']);
                acc = acc.add(seq![',']);
                assert(out@ == o0.add(acc));
            }
            push_fld(&mut out, "to");
            proof {
                lemma_cat_step(o0, acc, fld("to"@));
                acc = acc.add(fld("to"@));
                assert(out@ == o0.add(acc));
            }
            push_str_enc(&mut out, to.as_str());
            proof {
                lemma_cat_step(o0, acc, enc_str(to@));
                acc = acc.add(enc_str(to@));
                assert(out@ == o0.add(acc));
            }
            push_ch(&mut out, '}');
            proof {
                lemma_cat_step(o0, acc, seq!['}']);
                acc = acc.add(seq!['}']);
                assert(out@ == o0.add(acc));
            }
            proof {
                assert(acc == spec_encode(m@));
            }
        },
        SignallerMessage::Join { from, room } => {
            push_ch(&mut out, '{');
            proof {
                lemma_cat_step(o0, acc, seq!['{']);
                acc = acc.add(seq!['{']);
                assert(out@ == o0.add(acc));
            }
            push_fld(&mut out, "type");
            proof {
                lemma_cat_step(o0, acc, fld("type"@));
                acc = acc.add(fld("type"@));
                assert(out@ == o0.add(acc));
            }
            push_key(&mut out, "join");
            proof {
                lemma_cat_step(o0, acc, enc_key("join"@));
                acc = acc.add(enc_key("join"@));
                assert(out@ == o0.add(acc));
            }
            push_ch(&mut out, ',');
            proof {
                lemma_cat_step(o0, acc, seq![',']);
                acc = acc.add(seq![',']);
                assert(out@ == o0.add(acc));
            }
            push_fld(&mut out, "from");
            proof {
                lemma_cat_step(o0, acc, fld("from"@));
                acc = acc.add(fld("from"@));
                assert(out@ == o0.add(acc));
            }
            push_str_enc(&mut out, from.as_str());
            proof {
                lemma_cat_step(o0, acc, enc_str(from@));
                acc = acc.add(enc_str(from@));
                assert(out@ == o0.add(acc));
            }
            push_ch(&mut out, ',');
            proof {
                lemma_cat_step(o0, acc, seq![',']);
                acc = acc.add(seq![',']);
                assert(out@ == o0.add(acc));
            }
            push_fld(&mut out, "room");
            proof {
                lemma_cat_step(o0, acc, fld("room"@));
                acc = acc.add(fld("room"@));
                assert(out@ == o0.add(acc));
            }
            push_str_enc(&mut out, room.as_str());
            proof {
                lemma_cat_step(o0, acc, enc_str(room@));
                acc = acc.add(enc_str(room@));
                assert(out@ == o0.add(acc));
            }
            push_ch(&mut out, '}');
            proof {
                lemma_cat_step(o0, acc, seq!['}']);
                acc = acc.add(seq!['}']);
                assert(out@ == o0.add(acc));
            }
            proof {
                assert(acc == spec_encode(m@));
            }
        },
        SignallerMessage::JoinDeclined { to, reason } => {
            push_ch(&mut out, '{');
            proof {
                lemma_cat_step(o0, acc, seq!['{']);
                acc = acc.add(seq!['{']);
                assert(out@ == o0.add(acc));
            }
            push_fld(&mut out, "type");
            proof {
                lemma_cat_step(o0, acc, fld("type"@));
                acc = acc.add(fld("type"@));
                assert(out@ == o0.add(acc));
            }
            push_key(&mut out, "join_declined");
            proof {
                lemma_cat_step(o0, acc, enc_key("join_declined"@));
                acc = acc.add(enc_key("join_declined"@));
                assert(out@ == o0.add(acc));
            }
            push_ch(&mut out, ',');
            proof {
                lemma_cat_step(o0, acc, seq![',']);
                acc = acc.add(seq![',']);
                assert(out@ == o0.add(acc));
            }
            push_fld(&mut out, "to");
            proof {
                lemma_cat_step(o0, acc, fld("to"@));
                acc = acc.add(fld("to"@));
                assert(out@ == o0.add(acc));
            }
            push_str_enc(&mut out, to.as_str());
            proof {
                lemma_cat_step(o0, acc, enc_str(to@));
                acc = acc.add(enc_str(to@));
                assert(out@ == o0.add(acc));
            }
            push_ch(&mut out, ',');
            proof {
                lemma_cat_step(o0, acc, seq![',']);
                acc = acc.add(seq![',']);
                assert(out@ == o0.add(acc));
            }
            push_fld(&mut out, "reason");
            proof {
                lemma_cat_step(o0, acc, fld("reason"@));
                acc = acc.add(fld("reason"@));
                assert(out@ == o0.add(acc));
            }
            push_str_enc(&mut out, reason.as_str());
            proof {
                lemma_cat_step(o0, acc, enc_str(reason@));
                acc = acc.add(enc_str(reason@));
                assert(out@ == o0.add(acc));
            }
            push_ch(&mut out, '}');
            proof {
                lemma_cat_step(o0, acc, seq!['}']);
                acc = acc.add(seq!['}']);
                assert(out@ == o0.add(acc));
            }
            proof {
                assert(acc == spec_encode(m@));
            }
        },
        SignallerMessage::Start { room, name, os, version, control } => {
            push_ch(&mut out, '{');
            proof {
                lemma_cat_step(o0, acc, seq!['{']);
                acc = acc.add(seq!['{']);
                assert(out@ == o0.add(acc));
            }
            push_fld(&mut out, "type");
            proof {
                lemma_cat_step(o0, acc, fld("type"@));
                acc = acc.add(fld("type"@));
                assert(out@ == o0.add(acc));
            }
            push_key(&mut out, "start");
            proof {
                lemma_cat_step(o0, acc, enc_key("start"@));
                acc = acc.add(enc_key("start"@));
                assert(out@ == o0.add(acc));
            }
            push_ch(&mut out, ',');
            proof {
                lemma_cat_step(o0, acc, seq![',']);
                acc = acc.add(seq![',']);
                assert(out@ == o0.add(acc));
            }
            push_fld(&mut out, "room");
            proof {
                lemma_cat_step(o0, acc, fld("room"@));
                acc = acc.add(fld("room"@));
                assert(out@ == o0.add(acc));
            }
            push_str_enc(&mut out, room.as_str());
            proof {
                lemma_cat_step(o0, acc, enc_str(room@));
                acc = acc.add(enc_str(room@));
                assert(out@ == o0.add(acc));
            }
            push_ch(&mut out, ',');
            proof {
                lemma_cat_step(o0, acc, seq![',']);
                acc = acc.add(seq![',']);
                assert(out@ == o0.add(acc));
            }
            push_fld(&mut out, "name");
            proof {
                lemma_cat_step(o0, acc, fld("name"@));
                acc = acc.add(fld("name"@));
                assert(out@ == o0.add(acc));
            }
            push_str_enc(&mut out, name.as_str());
            proof {
                lemma_cat_step(o0, acc, enc_str(name@));
                acc = acc.add(enc_str(name@));
                assert(out@ == o0.add(acc));
            }
            push_ch(&mut out, ',');
            proof {
                lemma_cat_step(o0, acc, seq![',']);
                acc = acc.add(seq![',']);
                assert(out@ == o0.add(acc));
            }
            push_fld(&mut out, "os");
            proof {
                lemma_cat_step(o0, acc, fld("os"@));
                acc = acc.add(fld("os"@));
                assert(out@ == o0.add(acc));
            }
            push_str_enc(&mut out, os.as_str());
            proof {
                lemma_cat_step(o0, acc, enc_str(os@));
                acc = acc.add(enc_str(os@));
                assert(out@ == o0.add(acc));
            }
            push_ch(&mut out, ',');
            proof {
                lemma_cat_step(o0, acc, seq![',']);
                acc = acc.add(seq![',']);
                assert(out@ == o0.add(acc));
            }
            push_fld(&mut out, "version");
            proof {
                lemma_cat_step(o0, acc, fld("version"@));
                acc = acc.add(fld("version"@));
                assert(out@ == o0.add(acc));
            }
            push_str_enc(&mut out, version.as_str());
            proof {
                lemma_cat_step(o0, acc, enc_str(version@));
                acc = acc.add(enc_str(version@));
                assert(out@ == o0.add(acc));
            }
            push_ch(&mut out, ',');
            proof {
                lemma_cat_step(o0, acc, seq![',']);
                acc = acc.add(seq![',']);
                assert(out@ == o0.add(acc));
            }
            push_fld(&mut out, "control");
            proof {
                lemma_cat_step(o0, acc, fld("control"@));
                acc = acc.add(fld("control"@));
                assert(out@ == o0.add(acc));
            }
            push_bool(&mut out, *control);
            proof {
                lemma_cat_step(o0, acc, enc_bool(*control));
                acc = acc.add(enc_bool(*control));
                assert(out@ == o0.add(acc));
            }
            push_ch(&mut out, '}');
            proof {
                lemma_cat_step(o0, acc, seq!['}']);
                acc = acc.add(seq!['}']);
                assert(out@ == o0.add(acc));
            }
            proof {
                assert(acc == spec_encode(m@));
            }
        },
        SignallerMessage::StartResponse { room } => {
            push_ch(&mut out, '{');
            proof {
                lemma_cat_step(o0, acc, seq!['{']);
                acc = acc.add(seq!['{']);
                assert(out@ == o0.add(acc));
            }
            push_fld(&mut out, "type");
            proof {
                lemma_cat_step(o0, acc, fld("type"@));
                acc = acc.add(fld("type"@));
                assert(out@ == o0.add(acc));
            }
            push_key(&mut out, "start_response");
            proof {
                lemma_cat_step(o0, acc, enc_key("start_response"@));
                acc = acc.add(enc_key("start_response"@));
                assert(out@ == o0.add(acc));
            }
            push_ch(&mut out, ',');
            proof {
                lemma_cat_step(o0, acc, seq![',']);
                acc = acc.add(seq![',']);
                assert(out@ == o0.add(acc));
            }
            push_fld(&mut out, "room");
            proof {
                lemma_cat_step(o0, acc, fld("room"@));
                acc = acc.add(fld("room"@));
                assert(out@ == o0.add(acc));
            }
            push_str_enc(&mut out, room.as_str());
            proof {
                lemma_cat_step(o0, acc, enc_str(room@));
                acc = acc.add(enc_str(room@));
                assert(out@ == o0.add(acc));
            }
            push_ch(&mut out, '}');
            proof {
                lemma_cat_step(o0, acc, seq!['}']);
                acc = acc.add(seq!['}']);
                assert(out@ == o0.add(acc));
            }
            proof {
                assert(acc == spec_encode(m@));
            }
        },
        SignallerMessage::Leave { from } => {
            push_ch(&mut out, '{');
            proof {
                lemma_cat_step(o0, acc, seq!['{']);
                acc = acc.add(seq!['{']);
                assert(out@ == o0.add(acc));
            }
            push_fld(&mut out, "type");
            proof {
                lemma_cat_step(o0, acc, fld("type"@));
                acc = acc.add(fld("type"@));
                assert(out@ == o0.add(acc));
            }
            push_key(&mut out, "leave");
            proof {
                lemma_cat_step(o0, acc, enc_key("leave"@));
                acc = acc.add(enc_key("leave"@));
                assert(out@ == o0.add(acc));
            }
            push_ch(&mut out, ',');
            proof {
                lemma_cat_step(o0, acc, seq![',']);
                acc = acc.add(seq![',']);
                assert(out@ == o0.add(acc));
            }
            push_fld(&mut out, "from");
            proof {
                lemma_cat_step(o0, acc, fld("from"@));
                acc = acc.add(fld("from"@));
                assert(out@ == o0.add(acc));
            }
            push_str_enc(&mut out, from.as_str());
            proof {
                lemma_cat_step(o0, acc, enc_str(from@));
                acc = acc.add(enc_str(from@));
                assert(out@ == o0.add(acc));
            }
            push_ch(&mut out, '}');
            proof {
                lemma_cat_step(o0, acc, seq!['}']);
                acc = acc.add(seq!['}']);
                assert(out@ == o0.add(acc));
            }
            proof {
                assert(acc == spec_encode(m@));
            }
        },
        SignallerMessage::ServerClosed { to, room } => {
            push_ch(&mut out, '{');
            proof {
                lemma_cat_step(o0, acc, seq!['{']);
                acc = acc.add(seq!['{']);
                assert(out@ == o0.add(acc));
            }
            push_fld(&mut out, "type");
            proof {
                lemma_cat_step(o0, acc, fld("type"@));
                acc = acc.add(fld("type"@));
                assert(out@ == o0.add(acc));
            }
            push_key(&mut out, "server_closed");
            proof {
                lemma_cat_step(o0, acc, enc_key("server_closed"@));
                acc = acc.add(enc_key("server_closed"@));
                assert(out@ == o0.add(acc));
            }
            push_ch(&mut out, ',');
            proof {
                lemma_cat_step(o0, acc, seq![',']);
                acc = acc.add(seq![',']);
                assert(out@ == o0.add(acc));
            }
            push_fld(&mut out, "to");
            proof {
                lemma_cat_step(o0, acc, fld("to"@));
                acc = acc.add(fld("to"@));
                assert(out@ == o0.add(acc));
            }
            push_str_enc(&mut out, to.as_str());
            proof {
                lemma_cat_step(o0, acc, enc_str(to@));
                acc = acc.add(enc_str(to@));
                assert(out@ == o0.add(acc));
            }
            push_ch(&mut out, ',');
            proof {
                lemma_cat_step(o0, acc, seq![',']);
                acc = acc.add(seq![',']);
                assert(out@ == o0.add(acc));
            }
            push_fld(&mut out, "room");
            proof {
                lemma_cat_step(o0, acc, fld("room"@));
                acc = acc.add(fld("room"@));
                assert(out@ == o0.add(acc));
            }
            push_str_enc(&mut out, room.as_str());
            proof {
                lemma_cat_step(o0, acc, enc_str(room@));
                acc = acc.add(enc_str(room@));
                assert(out@ == o0.add(acc));
            }
            push_ch(&mut out, '}');
            proof {
                lemma_cat_step(o0, acc, seq!['}']);
                acc = acc.add(seq!['}']);
                assert(out@ == o0.add(acc));
            }
            proof {
                assert(acc == spec_encode(m@));
            }
        },
        SignallerMessage::KeepAlive => {
            push_ch(&mut out, '{');
            proof {
                lemma_cat_step(o0, acc, seq!['{']);
                acc = acc.add(seq!['{']);
                assert(out@ == o0.add(acc));
            }
            push_fld(&mut out, "type");
            proof {
                lemma_cat_step(o0, acc, fld("type"@));
                acc = acc.add(fld("type"@));
                assert(out@ == o0.add(acc));
            }
            push_key(&mut out, "keep_alive");
            proof {
                lemma_cat_step(o0, acc, enc_key("keep_alive"@));
                acc = acc.add(enc_key("keep_alive"@));
                assert(out@ == o0.add(acc));
            }
            push_ch(&mut out, '}');
            proof {
                lemma_cat_step(o0, acc, seq!['}']);
                acc = acc.add(seq!['}']);
                assert(out@ == o0.add(acc));
            }
            proof {
                assert(acc == spec_encode(m@));
            }
        },
        SignallerMessage::IceServers => {
            push_ch(&mut out, '{');
            proof {
                lemma_cat_step(o0, acc, seq!['{']);
                acc = acc.add(seq!['{']);
                assert(out@ == o0.add(acc));
            }
            push_fld(&mut out, "type");
            proof {
                lemma_cat_step(o0, acc, fld("type"@));
                acc = acc.add(fld("type"@));
                assert(out@ == o0.add(acc));
            }
            push_key(&mut out, "ice_servers");
            proof {
                lemma_cat_step(o0, acc, enc_key("ice_servers"@));
                acc = acc.add(enc_key("ice_servers"@));
                assert(out@ == o0.add(acc));
            }
            push_ch(&mut out, '}');
            proof {
                lemma_cat_step(o0, acc, seq!['}']);
                acc = acc.add(seq!['}']);
                assert(out@ == o0.add(acc));
            }
            proof {
                assert(acc == spec_encode(m@));
            }
        },
        SignallerMessage::IceServersResponse { ice_servers } => {
            push_ch(&mut out, '{');
            proof {
                lemma_cat_step(o0, acc, seq!['{']);
                acc = acc.add(seq!['{']);
                assert(out@ == o0.add(acc));
            }
            push_fld(&mut out, "type");
            proof {
                lemma_cat_step(o0, acc, fld("type"@));
                acc = acc.add(fld("type"@));
                assert(out@ == o0.add(acc));
            }
            push_key(&mut out, "ice_servers_response");
            proof {
                lemma_cat_step(o0, acc, enc_key("ice_servers_response"@));
                acc = acc.add(enc_key("ice_servers_response"@));
                assert(out@ == o0.add(acc));
            }
            push_ch(&mut out, ',');
            proof {
                lemma_cat_step(o0, acc, seq![',']);
                acc = acc.add(seq![',']);
                assert(out@ == o0.add(acc));
            }
            push_fld(&mut out, "ice_servers");
            proof {
                lemma_cat_step(o0, acc, fld("ice_servers"@));
                acc = acc.add(fld("ice_servers"@));
                assert(out@ == o0.add(acc));
            }
            push_ch(&mut out, '[');
            proof {
                lemma_cat_step(o0, acc, seq!['[']);
                acc = acc.add(seq!['[']);
                assert(out@ == o0.add(acc));
            }
            proof {
                assert(ice_servers.deep_view().skip(0) =~= ice_servers.deep_view());
            }
            push_ice_items(&mut out, ice_servers, 0);
            proof {
                lemma_cat_step(o0, acc, enc_ice_items(ice_servers.deep_view()));
                acc = acc.add(enc_ice_items(ice_servers.deep_view()));
                assert(out@ == o0.add(acc));
            }
            push_ch(&mut out, ']');
            proof {
                lemma_cat_step(o0, acc, seq![']']);
                acc = acc.add(seq![']']);
                assert(out@ == o0.add(acc));
            }
            push_ch(&mut out, '}');
            proof {
                lemma_cat_step(o0, acc, seq!['}']);
                acc = acc.add(seq!['}']);
                assert(out@ == o0.add(acc));
            }
            proof {
                assert(acc == spec_encode(m@));
            }
        },
        SignallerMessage::GetRoomList { os, name, version, server, sort, control, page, per_page } => {
            push_ch(&mut out, '{');
            proof {
                lemma_cat_step(o0, acc, seq!['{']);
                acc = acc.add(seq!['{']);
                assert(out@ == o0.add(acc));
            }
            push_fld(&mut out, "type");
            proof {
                lemma_cat_step(o0, acc, fld("type"@));
                acc = acc.add(fld("type"@));
                assert(out@ == o0.add(acc));
            }
            push_key(&mut out, "get_room_list");
            proof {
                lemma_cat_step(o0, acc, enc_key("get_room_list"@));
                acc = acc.add(enc_key("get_room_list"@));
                assert(out@ == o0.add(acc));
            }
            push_ch(&mut out, ',');
            proof {
                lemma_cat_step(o0, acc, seq![',']);
                acc = acc.add(seq![',']);
                assert(out@ == o0.add(acc));
            }
            push_fld(&mut out, "os");
            proof {
                lemma_cat_step(o0, acc, fld("os"@));
                acc = acc.add(fld("os"@));
                assert(out@ == o0.add(acc));
            }
            push_opt_str(&mut out, os);
            proof {
                lemma_cat_step(o0, acc, enc_opt_str(os.deep_view()));
                acc = acc.add(enc_opt_str(os.deep_view()));
                assert(out@ == o0.add(acc));
            }
            push_ch(&mut out, ',');
            proof {
                lemma_cat_step(o0, acc, seq![',']);
                acc = acc.add(seq![',']);
                assert(out@ == o0.add(acc));
            }
            push_fld(&mut out, "name");
            proof {
                lemma_cat_step(o0, acc, fld("name"@));
                acc = acc.add(fld("name"@));
                assert(out@ == o0.add(acc));
            }
            push_opt_str(&mut out, name);
            proof {
                lemma_cat_step(o0, acc, enc_opt_str(name.deep_view()));
                acc = acc.add(enc_opt_str(name.deep_view()));
                assert(out@ == o0.add(acc));
            }
            push_ch(&mut out, ',');
            proof {
                lemma_cat_step(o0, acc, seq![',']);
                acc = acc.add(seq![',']);
                assert(out@ == o0.add(acc));
            }
            push_fld(&mut out, "version");
            proof {
                lemma_cat_step(o0, acc, fld("version"@));
                acc = acc.add(fld("version"@));
                assert(out@ == o0.add(acc));
            }
            push_opt_str(&mut out, version);
            proof {
                lemma_cat_step(o0, acc, enc_opt_str(version.deep_view()));
                acc = acc.add(enc_opt_str(version.deep_view()));
                assert(out@ == o0.add(acc));
            }
            push_ch(&mut out, ',');
            proof {
                lemma_cat_step(o0, acc, seq![',']);
                acc = acc.add(seq![',']);
                assert(out@ == o0.add(acc));
            }
            push_fld(&mut out, "server");
            proof {
                lemma_cat_step(o0, acc, fld("server"@));
                acc = acc.add(fld("server"@));
                assert(out@ == o0.add(acc));
            }
            push_opt_str(&mut out, server);
            proof {
                lemma_cat_step(o0, acc, enc_opt_str(server.deep_view()));
                acc = acc.add(enc_opt_str(server.deep_view()));
                assert(out@ == o0.add(acc));
            }
            push_ch(&mut out, ',');
            proof {
                lemma_cat_step(o0, acc, seq![',']);
                acc = acc.add(seq![',']);
                assert(out@ == o0.add(acc));
            }
            push_fld(&mut out, "sort");
            proof {
                lemma_cat_step(o0, acc, fld("sort"@));
                acc = acc.add(fld("sort"@));
                assert(out@ == o0.add(acc));
            }
            push_opt_str(&mut out, sort);
            proof {
                lemma_cat_step(o0, acc, enc_opt_str(sort.deep_view()));
                acc = acc.add(enc_opt_str(sort.deep_view()));
                assert(out@ == o0.add(acc));
            }
            push_ch(&mut out, ',');
            proof {
                lemma_cat_step(o0, acc, seq![',']);
                acc = acc.add(seq![',']);
                assert(out@ == o0.add(acc));
            }
            push_fld(&mut out, "control");
            proof {
                lemma_cat_step(o0, acc, fld("control"@));
                acc = acc.add(fld("control"@));
                assert(out@ == o0.add(acc));
            }
            push_opt_bool(&mut out, control);
            proof {
                lemma_cat_step(o0, acc, enc_opt_bool(*control));
                acc = acc.add(enc_opt_bool(*control));
                assert(out@ == o0.add(acc));
            }
            push_ch(&mut out, ',');
            proof {
                lemma_cat_step(o0, acc, seq![',']);
                acc = acc.add(seq![',']);
                assert(out@ == o0.add(acc));
            }
            push_fld(&mut out, "page");
            proof {
                lemma_cat_step(o0, acc, fld("page"@));
                acc = acc.add(fld("page"@));
                assert(out@ == o0.add(acc));
            }
            push_opt_usize(&mut out, page);
            proof {
                lemma_cat_step(o0, acc, enc_opt_usize(*page));
                acc = acc.add(enc_opt_usize(*page));
                assert(out@ == o0.add(acc));
            }
            push_ch(&mut out, ',');
            proof {
                lemma_cat_step(o0, acc, seq![',']);
                acc = acc.add(seq![',']);
                assert(out@ == o0.add(acc));
            }
            push_fld(&mut out, "per_page");
            proof {
                lemma_cat_step(o0, acc, fld("per_page"@));
                acc = acc.add(fld("per_page"@));
                assert(out@ == o0.add(acc));
            }
            push_opt_usize(&mut out, per_page);
            proof {
                lemma_cat_step(o0, acc, enc_opt_usize(*per_page));
                acc = acc.add(enc_opt_usize(*per_page));
                assert(out@ == o0.add(acc));
            }
            push_ch(&mut out, '}');
            proof {
                lemma_cat_step(o0, acc, seq!['}']);
                acc = acc.add(seq!['}']);
                assert(out@ == o0.add(acc));
            }
            proof {
                assert(acc == spec_encode(m@));
            }
        },
        SignallerMessage::RoomListResponse { rooms, total_count, page, per_page } => {
            push_ch(&mut out, '{');
            proof {
                lemma_cat_step(o0, acc, seq!['{']);
                acc = acc.add(seq!['{']);
                assert(out@ == o0.add(acc));
            }
            push_fld(&mut out, "type");
            proof {
                lemma_cat_step(o0, acc, fld("type"@));
                acc = acc.add(fld("type"@));
                assert(out@ == o0.add(acc));
            }
            push_key(&mut out, "room_list_response");
            proof {
                lemma_cat_step(o0, acc, enc_key("room_list_response"@));
                acc = acc.add(enc_key("room_list_response"@));
                assert(out@ == o0.add(acc));
            }
            push_ch(&mut out, ',');
            proof {
                lemma_cat_step(o0, acc, seq![',']);
                acc = acc.add(seq![',']);
                assert(out@ == o0.add(acc));
            }
            push_fld(&mut out, "rooms");
            proof {
                lemma_cat_step(o0, acc, fld("rooms"@));
                acc = acc.add(fld("rooms"@));
                assert(out@ == o0.add(acc));
            }
            push_ch(&mut out, '{');
            proof {
                lemma_cat_step(o0, acc, seq!['{']);
                acc = acc.add(seq!['{']);
                assert(out@ == o0.add(acc));
            }
            proof {
                assert(rooms.deep_view().skip(0) =~= rooms.deep_view());
            }
            push_room_items(&mut out, rooms, 0);
            proof {
                lemma_cat_step(o0, acc, enc_room_items(rooms.deep_view()));
                acc = acc.add(enc_room_items(rooms.deep_view()));
                assert(out@ == o0.add(acc));
            }
            push_ch(&mut out, '}');
            proof {
                lemma_cat_step(o0, acc, seq!['}']);
                acc = acc.add(seq!['}']);
                assert(out@ == o0.add(acc));
            }
            push_ch(&mut out, ',');
            proof {
                lemma_cat_step(o0, acc, seq![',']);
                acc = acc.add(seq![',']);
                assert(out@ == o0.add(acc));
            }
            push_fld(&mut out, "total_count");
            proof {
                lemma_cat_step(o0, acc, fld("total_count"@));
                acc = acc.add(fld("total_count"@));
                assert(out@ == o0.add(acc));
            }
            push_dec(&mut out, *total_count as u64);
            proof {
                lemma_cat_step(o0, acc, dec_digits(*total_count as nat));
                acc = acc.add(dec_digits(*total_count as nat));
                assert(out@ == o0.add(acc));
            }
            push_ch(&mut out, ',');
            proof {
                lemma_cat_step(o0, acc, seq![',']);
                acc = acc.add(seq![',']);
                assert(out@ == o0.add(acc));
            }
            push_fld(&mut out, "page");
            proof {
                lemma_cat_step(o0, acc, fld("page"@));
                acc = acc.add(fld("page"@));
                assert(out@ == o0.add(acc));
            }
            push_opt_usize(&mut out, page);
            proof {
                lemma_cat_step(o0, acc, enc_opt_usize(*page));
                acc = acc.add(enc_opt_usize(*page));
                assert(out@ == o0.add(acc));
            }
            push_ch(&mut out, ',');
            proof {
                lemma_cat_step(o0, acc, seq![',']);
                acc = acc.add(seq![',']);
                assert(out@ == o0.add(acc));
            }
            push_fld(&mut out, "per_page");
            proof {
                lemma_cat_step(o0, acc, fld("per_page"@));
                acc = acc.add(fld("per_page"@));
                assert(out@ == o0.add(acc));
            }
            push_opt_usize(&mut out, per_page);
            proof {
                lemma_cat_step(o0, acc, enc_opt_usize(*per_page));
                acc = acc.add(enc_opt_usize(*per_page));
                assert(out@ == o0.add(acc));
            }
            push_ch(&mut out, '}');
            proof {
                lemma_cat_step(o0, acc, seq!['}']);
                acc = acc.add(seq!['}']);
                assert(out@ == o0.add(acc));
            }
            proof {
                assert(acc == spec_encode(m@));
            }
        },
        SignallerMessage::SubscribeRoomUpdates => {
            push_ch(&mut out, '{');
            proof {
                lemma_cat_step(o0, acc, seq!['{']);
                acc = acc.add(seq!['{']);
                assert(out@ == o0.add(acc));
            }
            push_fld(&mut out, "type");
            proof {
                lemma_cat_step(o0, acc, fld("type"@));
                acc = acc.add(fld("type"@));
                assert(out@ == o0.add(acc));
            }
            push_key(&mut out, "subscribe_room_updates");
            proof {
                lemma_cat_step(o0, acc, enc_key("subscribe_room_updates"@));
                acc = acc.add(enc_key("subscribe_room_updates"@));
                assert(out@ == o0.add(acc));
            }
            push_ch(&mut out, '}');
            proof {
                lemma_cat_step(o0, acc, seq!['}']);
                acc = acc.add(seq!['}']);
                assert(out@ == o0.add(acc));
            }
            proof {
                assert(acc == spec_encode(m@));
            }
        },
        SignallerMessage::UnsubscribeRoomUpdates => {
            push_ch(&mut out, '{');
            proof {
                lemma_cat_step(o0, acc, seq!['{']);
                acc = acc.add(seq!['{']);
                assert(out@ == o0.add(acc));
            }
            push_fld(&mut out, "type");
            proof {
                lemma_cat_step(o0, acc, fld("type"@));
                acc = acc.add(fld("type"@));
                assert(out@ == o0.add(acc));
            }
            push_key(&mut out, "unsubscribe_room_updates");
            proof {
                lemma_cat_step(o0, acc, enc_key("unsubscribe_room_updates"@));
                acc = acc.add(enc_key("unsubscribe_room_updates"@));
                assert(out@ == o0.add(acc));
            }
            push_ch(&mut out, '}');
            proof {
                lemma_cat_step(o0, acc, seq!['}']);
                acc = acc.add(seq!['}']);
                assert(out@ == o0.add(acc));
            }
            proof {
                assert(acc == spec_encode(m@));
            }
        },
        SignallerMessage::NewRoomNotification { room } => {
            push_ch(&mut out, '{');
            proof {
                lemma_cat_step(o0, acc, seq!['{']);
                acc = acc.add(seq!['{']);
                assert(out@ == o0.add(acc));
            }
            push_fld(&mut out, "type");
            proof {
                lemma_cat_step(o0, acc, fld("type"@));
                acc = acc.add(fld("type"@));
                assert(out@ == o0.add(acc));
            }
            push_key(&mut out, "new_room_notification");
            proof {
                lemma_cat_step(o0, acc, enc_key("new_room_notification"@));
                acc = acc.add(enc_key("new_room_notification"@));
                assert(out@ == o0.add(acc));
            }
            push_ch(&mut out, ',');
            proof {
                lemma_cat_step(o0, acc, seq![',']);
                acc = acc.add(seq![',']);
                assert(out@ == o0.add(acc));
            }
            push_fld(&mut out, "room");
            proof {
                lemma_cat_step(o0, acc, fld("room"@));
                acc = acc.add(fld("room"@));
                assert(out@ == o0.add(acc));
            }
            push_str_enc(&mut out, room.as_str());
            proof {
                lemma_cat_step(o0, acc, enc_str(room@));
                acc = acc.add(enc_str(room@));
                assert(out@ == o0.add(acc));
            }
            push_ch(&mut out, '}');
            proof {
                lemma_cat_step(o0, acc, seq!['}']);
                acc = acc.add(seq!['}']);
                assert(out@ == o0.add(acc));
            }
            proof {
                assert(acc == spec_encode(m@));
            }
        },
    }
    proof {
        assert(out@ == acc);
    }
    string_from_chars(&out)
}

} // verus!
