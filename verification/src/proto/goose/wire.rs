//! The octets of a GOOSE PDU, field by field.

use vstd::prelude::*;
use crate::ber::{
    bool_octets, ctx, ctx_cons, laws, octets_of, sint_octets, tlv, utc_octets, CursorModel, Tag,
};
use crate::ber::wire::{element, group_wire};
use crate::proto::data::data_of;
use crate::proto::goose::apdu::{
    count_of, flags_of, goose_bytes, goose_fault, goose_of, items_of, lemma_goose_round_trip,
    members_of, GooseHeaderModel,
};

verus! {

/// A `goosePdu` as it stands on the wire, with these fields in this order. The `goID` may be left
/// out; `tail` is what stands behind the sequence number.
pub open spec fn pdu_octets(
    gocb_ref: Seq<u8>,
    live: Seq<u8>,
    dat_set: Seq<u8>,
    go_id: Option<Seq<u8>>,
    t: Seq<u8>,
    st_num: Seq<u8>,
    sq_num: Seq<u8>,
    tail: Seq<u8>,
) -> Seq<u8> {
    element(
        0x61,
        element(0x80, gocb_ref) + (element(0x81, live) + (element(0x82, dat_set) + ((match go_id {
            Some(id) => element(0x83, id),
            None => Seq::empty(),
        }) + (element(0x84, t) + (element(0x85, st_num) + (element(0x86, sq_num) + tail)))))),
    )
}

/// The fields behind the sequence number.
pub open spec fn tail_octets(
    simulation: bool,
    conf_rev: Seq<u8>,
    nds_com: bool,
    entries: Seq<u8>,
    all_data: Seq<u8>,
) -> Seq<u8> {
    let flag = |b: bool|
        if b {
            seq![0xFFu8]
        } else {
            seq![0u8]
        };
    element(0x87, flag(simulation)) + (element(0x88, conf_rev) + (element(0x89, flag(nds_com)) + (
    element(0x8A, entries) + element(0xAB, all_data))))
}

/// What each field of a PDU is on the wire: `gocbRef` under 80, `timeAllowedtoLive` under 81,
/// `datSet` under 82, `goID` under 83, `t` under 84, `stNum` under 85, `sqNum` under 86,
/// `simulation` under 87, `confRev` under 88, `ndsCom` under 89, `numDatSetEntries` under 8A and
/// `allData` under AB, all in an element under 61. These octets are what is written, and each of
/// them is read as that field.
pub proof fn lemma_goose_layout(h: GooseHeaderModel, body: Seq<u8>, after: Seq<u8>)
    requires
        goose_fault(h) is None,
        goose_bytes(h, body).len() <= usize::MAX,
    ensures
        ({
            let octets = pdu_octets(
                octets_of(h.gocb_ref),
                sint_octets(h.time_allowed_to_live as int),
                octets_of(h.dat_set),
                match h.go_id {
                    Some(id) => Some(octets_of(id)),
                    None => None,
                },
                utc_octets(h.t),
                sint_octets(h.st_num as int),
                sint_octets(h.sq_num as int),
                tail_octets(
                    h.simulation,
                    sint_octets(h.conf_rev as int),
                    h.nds_com,
                    sint_octets(h.num_dat_set_entries as int),
                    body,
                ),
            );
            &&& goose_bytes(h, body) == octets
            &&& goose_of(octets + after) matches Ok(m) && {
                &&& m.header.gocb_ref == h.gocb_ref
                &&& m.header.time_allowed_to_live == h.time_allowed_to_live
                &&& m.header.dat_set == h.dat_set
                &&& m.header.go_id == h.go_id
                &&& m.header.t == h.t
                &&& m.header.st_num == h.st_num
                &&& m.header.sq_num == h.sq_num
                &&& m.header.simulation == h.simulation
                &&& m.header.conf_rev == h.conf_rev
                &&& m.header.nds_com == h.nds_com
                &&& m.header.num_dat_set_entries == h.num_dat_set_entries
                &&& m.members.value == body
                &&& m.security is None
                &&& m.raw == octets
            }
        }),
{
    lemma_spelled(h, body);
    lemma_goose_round_trip(h, body, after);
    let g = goose_of(goose_bytes(h, body) + after);
    assert(g matches Ok(m) && m.header == h && m.members.value == body && m.security is None
        && m.raw == goose_bytes(h, body));
}

proof fn lemma_spelled(h: GooseHeaderModel, body: Seq<u8>)
    ensures
        goose_bytes(h, body) == pdu_octets(
            octets_of(h.gocb_ref),
            sint_octets(h.time_allowed_to_live as int),
            octets_of(h.dat_set),
            match h.go_id {
                Some(id) => Some(octets_of(id)),
                None => None,
            },
            utc_octets(h.t),
            sint_octets(h.st_num as int),
            sint_octets(h.sq_num as int),
            tail_octets(
                h.simulation,
                sint_octets(h.conf_rev as int),
                h.nds_com,
                sint_octets(h.num_dat_set_entries as int),
                body,
            ),
        ),
{
    broadcast use group_wire;

    assert(bool_octets(true) =~= seq![0xFFu8]);
    assert(bool_octets(false) =~= seq![0u8]);
}

/// The members of a PDU are listed and counted one after the other.
pub proof fn lemma_members_listed(tag: Tag, v: Seq<u8>, rest: Seq<u8>, offset: usize)
    requires
        v.len() <= u64::MAX,
    ensures
        ({
            let c = CursorModel { bytes: tlv(tag, v) + rest, offset };
            let next = laws::cursor_after(tag, v, rest, offset);
            &&& items_of(c).len() == items_of(next).len() + 1
            &&& items_of(c)[0] == data_of(laws::element_at(tag, v, offset))
            &&& items_of(c).skip(1) == items_of(next)
            &&& count_of(next) matches Some(n) ==> count_of(c) == Some(n + 1)
            &&& count_of(next) is None ==> count_of(c) is None
        }),
        items_of(CursorModel { bytes: Seq::empty(), offset }).len() == 0,
        count_of(CursorModel { bytes: Seq::empty(), offset }) == Some(0nat),
{
    broadcast use laws::lemma_tlv_len;

    let c = CursorModel { bytes: tlv(tag, v) + rest, offset };
    laws::lemma_first(tag, v, rest, offset);
    assert(items_of(c).skip(1) =~= items_of(c.rest()));
}

/// What stands behind the members under the number 12 is kept as it is.
pub proof fn lemma_security_kept(
    h: GooseHeaderModel,
    body: Seq<u8>,
    s: Seq<u8>,
    raw: Seq<u8>,
    offset: usize,
)
    requires
        tlv(ctx_cons(11), body).len() <= u64::MAX,
        s.len() <= u64::MAX,
    ensures
        ({
            let c = CursorModel { bytes: tlv(ctx_cons(11), body) + tlv(ctx_cons(12), s), offset };
            members_of(c, h, raw) matches Ok(m) && m.header == h && m.members.value == body
                && m.security == Some(s) && m.raw == raw
        }),
{
    broadcast use laws::lemma_tlv_len;

    laws::lemma_first(ctx_cons(11), body, tlv(ctx_cons(12), s), offset);
    let next = laws::cursor_after(ctx_cons(11), body, tlv(ctx_cons(12), s), offset);
    laws::lemma_only(ctx_cons(12), s, next.offset);
}

/// Either flag may be left out, and is then not set.
pub proof fn lemma_flags_left_out(
    h: GooseHeaderModel,
    conf_rev: u32,
    entries: u32,
    rest: Seq<u8>,
    offset: usize,
)
    ensures
        ({
            let tail = tlv(ctx(10), sint_octets(entries as int)) + rest;
            let c = CursorModel { bytes: tlv(ctx(8), sint_octets(conf_rev as int)) + tail, offset };
            flags_of(c, h) matches Ok((x, after)) && !x.simulation && !x.nds_com && x.conf_rev
                == conf_rev && x.num_dat_set_entries == entries && after.bytes == rest
                && x.gocb_ref == h.gocb_ref && x.st_num == h.st_num && x.sq_num == h.sq_num
        }),
{
    broadcast use laws::lemma_tlv_len;

    let v = sint_octets(conf_rev as int);
    let w = sint_octets(entries as int);
    let tail = tlv(ctx(10), w) + rest;
    let c = CursorModel { bytes: tlv(ctx(8), v) + tail, offset };
    laws::lemma_unsigned_field(ctx(8), conf_rev as u64, offset);
    laws::lemma_first(ctx(8), v, tail, offset);
    laws::lemma_unsigned32(ctx(8), conf_rev, tail, offset);
    let next = laws::cursor_after(ctx(8), v, tail, offset);
    laws::lemma_unsigned_field(ctx(10), entries as u64, next.offset);
    laws::lemma_first(ctx(10), w, rest, next.offset);
    laws::lemma_unsigned32(ctx(10), entries, rest, next.offset);
}

} // verus!
