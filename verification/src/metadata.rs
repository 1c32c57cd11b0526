//! Composite-metadata framing for outbound frames.
//!
//! A composite metadata blob is a concatenation of entries; each entry built
//! here carries a well-known mime id (high bit set in the first byte), a
//! 24-bit big-endian payload length, and the payload itself. The routing
//! entry's payload is a single routing tag (a length byte followed by the
//! dotted `service.method` name); the authentication entry's payload is the
//! bearer scheme byte (the scheme id with its high bit set) followed by the
//! raw token bytes.
use vstd::prelude::*;

use crate::wire::u24_be;
use crate::wire::encode_u24_be;
use crate::wire::append_slice;
use crate::wire::copy_range;

verus! {

/// Well-known mime id of the routing metadata entry.
pub const ROUTING_MIME_ID: u8 = 0x7e;

/// Well-known mime id of the authentication metadata entry.
pub const AUTH_MIME_ID: u8 = 0x7c;

/// Bearer auth scheme byte: the well-known scheme id 1 with the high bit set
/// to mark it as a well-known, non-custom scheme.
pub const BEARER_SCHEME_BYTE: u8 = 0x81;

/// One composite metadata entry with a well-known mime id.
pub open spec fn composite_entry(mime_id: u8, payload: Seq<u8>) -> Seq<u8>
    recommends
        mime_id < 0x80,
        payload.len() < 0x1000000,
{
    seq![(0x80 + mime_id) as u8] + u24_be(payload.len() as nat) + payload
}

/// The routing metadata blob: one entry whose payload is a single tag.
pub open spec fn routing_metadata(route: Seq<u8>) -> Seq<u8>
    recommends
        route.len() <= 255,
{
    composite_entry(ROUTING_MIME_ID, seq![route.len() as u8] + route)
}

/// The authentication metadata blob: one entry whose payload is the bearer
/// scheme byte followed by the token.
pub open spec fn auth_metadata(token: Seq<u8>) -> Seq<u8>
    recommends
        token.len() + 1 < 0x1000000,
{
    composite_entry(AUTH_MIME_ID, seq![BEARER_SCHEME_BYTE] + token)
}

/// Build one composite entry. `None` when the payload cannot be framed
/// (it does not fit the 24-bit length).
fn build_composite_entry(mime_id: u8, payload: &Vec<u8>) -> (r: Option<Vec<u8>>)
    requires
        mime_id < 0x80,
    ensures
        payload@.len() < 0x1000000 ==> (r matches Some(v) && v@ == composite_entry(
            mime_id,
            payload@,
        )),
        payload@.len() >= 0x1000000 ==> r is None,
{
    if payload.len() >= 0x1000000 {
        return None;
    }
    let mut out: Vec<u8> = Vec::new();
    out.push(0x80 + mime_id);
    encode_u24_be(payload.len() as u32, &mut out);
    append_slice(&mut out, payload.as_slice());
    Some(out)
}

/// Serialize the routing metadata naming `route` (the dotted
/// `service.method` string). `None` when the name does not fit a tag's
/// single length byte.
pub fn build_routing_metadata(route: &[u8]) -> (r: Option<Vec<u8>>)
    ensures
        route@.len() <= 255 ==> (r matches Some(v) && v@ == routing_metadata(route@)),
        route@.len() > 255 ==> r is None,
{
    if route.len() > 255 {
        return None;
    }
    let mut payload: Vec<u8> = Vec::new();
    payload.push(route.len() as u8);
    append_slice(&mut payload, route);
    let r = build_composite_entry(ROUTING_MIME_ID, &payload);
    proof {
        assert(payload@ =~= seq![route@.len() as u8] + route@);
    }
    r
}

/// Serialize the bearer-authentication metadata for `token`. `None` when the
/// token does not fit the 24-bit entry length.
pub fn build_auth_metadata(token: &[u8]) -> (r: Option<Vec<u8>>)
    ensures
        token@.len() + 1 < 0x1000000 ==> (r matches Some(v) && v@ == auth_metadata(token@)),
        token@.len() + 1 >= 0x1000000 ==> r is None,
{
    if token.len() >= 0xffffff {
        return None;
    }
    let mut payload: Vec<u8> = Vec::new();
    payload.push(BEARER_SCHEME_BYTE);
    append_slice(&mut payload, token);
    let r = build_composite_entry(AUTH_MIME_ID, &payload);
    proof {
        assert(payload@ =~= seq![BEARER_SCHEME_BYTE] + token@);
    }
    r
}

/// The first composite entry of `b`, when it carries a well-known mime id:
/// the id, the payload, and the offset just past the entry.
pub open spec fn parse_entry(b: Seq<u8>) -> Option<(u8, Seq<u8>, int)> {
    if b.len() < 4 {
        None
    } else if b[0] < 0x80 {
        None
    } else {
        let id = (b[0] - 0x80) as u8;
        let len = (b[1] as nat) * 0x10000 + (b[2] as nat) * 0x100 + (b[3] as nat);
        if 4 + len > b.len() {
            None
        } else {
            Some((id, b.subrange(4, 4 + len as int), 4 + len as int))
        }
    }
}

/// The first routing tag of a composite metadata blob, when its first entry
/// is a routing entry holding at least one tag.
pub open spec fn first_route(b: Seq<u8>) -> Option<Seq<u8>> {
    match parse_entry(b) {
        None => None,
        Some((id, payload, _)) => {
            if id != ROUTING_MIME_ID || payload.len() < 1 {
                None
            } else {
                let tag_len = payload[0] as nat;
                if 1 + tag_len > payload.len() {
                    None
                } else {
                    Some(payload.subrange(1, 1 + tag_len as int))
                }
            }
        },
    }
}

/// Extract the first routing tag from a serialized composite metadata blob.
pub fn decode_first_route(b: &[u8]) -> (r: Option<Vec<u8>>)
    ensures
        r is None <==> first_route(b@) is None,
        r matches Some(v) ==> first_route(b@) == Some(v@),
{
    if b.len() < 4 {
        return None;
    }
    if b[0] < 0x80 || b[0] - 0x80 != ROUTING_MIME_ID {
        return None;
    }
    let len: usize = (b[1] as usize) * 0x10000 + (b[2] as usize) * 0x100 + (b[3] as usize);
    if len > b.len() - 4 {
        return None;
    }
    if len < 1 {
        return None;
    }
    let tag_len: usize = b[4] as usize;
    if 1 + tag_len > len {
        return None;
    }
    let route = copy_range(b, 5, 5 + tag_len);
    proof {
        let payload = b@.subrange(4, 4 + len as int);
        assert(payload[0] == b@[4]);
        assert(route@ =~= payload.subrange(1, 1 + tag_len as int));
    }
    Some(route)
}

/// Round trip: the routing metadata built for a name parses back to exactly
/// that name.
pub proof fn lemma_routing_metadata_round_trip(route: Seq<u8>)
    requires
        route.len() <= 255,
    ensures
        first_route(routing_metadata(route)) == Some(route),
{
    let payload = seq![route.len() as u8] + route;
    let b = routing_metadata(route);
    assert(b[0] == 0xfe);
    assert(b[1] == 0);
    assert(b[2] == (payload.len() as nat / 0x100 % 0x100) as u8);
    assert(b[3] == (payload.len() as nat % 0x100) as u8);
    assert((b[1] as nat) * 0x10000 + (b[2] as nat) * 0x100 + (b[3] as nat) == payload.len());
    assert(b.subrange(4, 4 + payload.len() as int) =~= payload);
    assert(payload.subrange(1, 1 + route.len() as int) =~= route);
}

} // verus!
