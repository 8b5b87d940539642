//! The route of a request: on arrival, the endpoint it came from and the
//! hops it went through (four bytes each, the last one being the request id,
//! whose first bit is set) move from the body to the header; the reply goes
//! back through the endpoint named first in that header.
use vstd::prelude::*;

use crate::common::{EndpointId, Message, MessageView};
use crate::proto::codec::{be_bytes, be_u32, read_u32_be, u32_to_be_vec};

verus! {

/// How many bytes at the start of `body` make the route: whole hops of four
/// bytes up to the first whose first byte has its highest bit set, within
/// `hops` hops.
pub open spec fn route_len(body: Seq<u8>, hops: nat) -> Option<nat>
    decreases hops,
{
    if hops == 0 || body.len() < 4 {
        None
    } else if body[0] >= 0x80 {
        Some(4)
    } else {
        match route_len(body.subrange(4, body.len() as int), (hops - 1) as nat) {
            Some(n) => Some(n + 4),
            None => None,
        }
    }
}

/// A request as it arrived from `eid`, as the user receives it: the
/// endpoint, then the route, appended to the header; nothing when the route
/// ends beyond `ttl` hops or beyond the body.
pub open spec fn routed_in(raw: MessageView, eid: EndpointId, ttl: u8) -> Option<MessageView> {
    let h = raw.0 + be_bytes(eid as u32);
    match route_len(raw.1, ttl as nat) {
        Some(n) => Some((h + raw.1.take(n as int), raw.1.skip(n as int))),
        None => None,
    }
}

/// A reply as it leaves: its route is the saved backtrace, or, for a device,
/// its own header; the first four bytes name the endpoint it goes to and are
/// taken off. Nothing when the route is shorter than that.
pub open spec fn routed_out(msg: MessageView, backtrace: Seq<u8>, is_device_item: bool) -> Option<(MessageView, EndpointId)> {
    let h = if is_device_item {
        msg.0
    } else {
        backtrace
    };
    if h.len() < 4 {
        None
    } else {
        Some(((h.subrange(4, h.len() as int), msg.1), be_u32(h) as EndpointId))
    }
}

pub fn raw_msg_to_msg(raw_msg: Message, eid: EndpointId, ttl: u8) -> (r: Option<Message>)
    ensures
        r matches Some(m) ==> routed_in(raw_msg@, eid, ttl) == Some(m@),
        r is None ==> routed_in(raw_msg@, eid, ttl) is None,
{
    let ghost raw = raw_msg@;
    let (mut header, mut body) = raw_msg.split();
    let mut hops: u8 = 0;
    let eid_bytes = u32_to_be_vec(#[verifier::truncate] (eid as u32));

    header.extend_from_slice(eid_bytes.as_slice());
    let ghost h0 = header@;
    proof {
        assert(h0 =~= raw.0 + be_bytes(eid as u32));
        assert(body@ =~= raw.1.skip(0));
        assert(header@ =~= h0 + raw.1.take(0));
    }

    loop
        invariant
            raw == raw_msg@,
            hops <= ttl,
            h0 == raw.0 + be_bytes(eid as u32),
            4 * hops <= raw.1.len(),
            body@ == raw.1.skip(4 * hops as int),
            header@ == h0 + raw.1.take(4 * hops as int),
            route_len(raw.1, ttl as nat) == match route_len(body@, (ttl - hops) as nat) {
                Some(n) => Some((n + 4 * hops) as nat),
                None => None::<nat>,
            },
        decreases ttl - hops,
    {
        if hops >= ttl {
            proof {
                assert(route_len(body@, (ttl - hops) as nat) is None);
            }
            return None;
        }
        hops = hops + 1;

        if body.len() < 4 {
            proof {
                assert(route_len(body@, (ttl - (hops - 1)) as nat) is None);
            }
            return None;
        }

        let ghost before = body@;
        let tail = body.split_off(4);
        header.extend_from_slice(body.as_slice());

        let position = header.len() - 4;
        let first = header[position];
        proof {
            assert(before.subrange(4, before.len() as int) =~= tail@);
            assert(first == before[0]);
            assert(raw.1.take(4 * hops as int) =~= raw.1.take(4 * (hops - 1) as int) + before.take(4));
            assert(body@ =~= before.take(4));
            assert(tail@ =~= raw.1.skip(4 * hops as int));
            assert((first & 0x80 != 0) == (first >= 0x80)) by (bit_vector);
        }
        if first & 0x80 != 0 {
            return Some(Message::from_header_and_body(header, tail));
        }
        body = tail;
    }
}

pub fn msg_to_raw_msg(msg: Message, backtrace: &Vec<u8>, is_device_item: bool) -> (r: Option<(Message, EndpointId)>)
    ensures
        r matches Some((m, e)) ==> routed_out(msg@, backtrace@, is_device_item) == Some((m@, e)),
        r is None ==> routed_out(msg@, backtrace@, is_device_item) is None,
{
    let (mut header, body) = msg.split();

    if !is_device_item {
        header.clear();
        header.extend_from_slice(backtrace.as_slice());
        proof {
            assert(header@ =~= backtrace@);
        }
    }

    if header.len() < 4 {
        return None;
    }

    let tail = header.split_off(4);
    let eid_u32 = read_u32_be(header.as_slice());
    let eid = eid_u32 as EndpointId;

    Some((Message::from_header_and_body(tail, body), eid))
}

/// A reply goes back to the endpoint its request came from, carrying the
/// route of that request, when the request arrived with an empty header and
/// the user's reply is routed by the backtrace saved from it.
pub proof fn lemma_reply_goes_back(raw: MessageView, eid: EndpointId, ttl: u8, reply_body: Seq<u8>)
    requires
        raw.0.len() == 0,
        eid <= u32::MAX,
        routed_in(raw, eid, ttl) is Some,
    ensures
        ({
            let req = routed_in(raw, eid, ttl)->0;
            let n = (req.0.len() - 4) as int;
            routed_out((Seq::empty(), reply_body), req.0, false) == Some(((raw.1.take(n), reply_body), eid))
        }),
{
    let req = routed_in(raw, eid, ttl)->0;
    let n = route_len(raw.1, ttl as nat)->0;
    lemma_route_len_bounds(raw.1, ttl as nat);
    let h = raw.0 + be_bytes(eid as u32);
    assert(h =~= be_bytes(eid as u32));
    assert(req.0 =~= be_bytes(eid as u32) + raw.1.take(n as int));
    assert(req.0.subrange(0, 4) =~= be_bytes(eid as u32));
    crate::proto::codec::lemma_be_round_trip(eid as u32);
    assert(be_u32(req.0) == be_u32(be_bytes(eid as u32)));
    assert(req.0.subrange(4, req.0.len() as int) =~= raw.1.take(n as int));
}

pub proof fn lemma_route_len_bounds(body: Seq<u8>, hops: nat)
    ensures
        route_len(body, hops) matches Some(n) ==> 4 <= n <= body.len(),
    decreases hops,
{
    if hops > 0 && body.len() >= 4 && body[0] < 0x80 {
        lemma_route_len_bounds(body.subrange(4, body.len() as int), (hops - 1) as nat);
    }
}

} // verus!
