//! Where each field of a frame stands.

use vstd::prelude::*;
use crate::proto::ethernet::{
    address_of, frame_bytes, frame_of, tci_of, vlan_of, FrameHeaderModel, VlanTag,
};

verus! {

/// The number that two octets spell, the first worth 256.
pub open spec fn number_at(b: Seq<u8>, i: int) -> int {
    b[i] * 256 + b[i + 1]
}

/// A frame without a tag: six octets of destination, six of source, the EtherType at 12, the
/// APPID at 14, the length at 16, the two reserved fields at 18 and 20, and the APDU from 22 to as
/// far as the length reaches, which counts from the APPID on.
pub proof fn lemma_untagged(b: Seq<u8>)
    requires
        b.len() >= 22,
        number_at(b, 12) == 0x88B8 || number_at(b, 12) == 0x88BA,
        8 <= number_at(b, 16) <= b.len() - 14,
    ensures
        frame_of(b) matches Ok(f) && {
            &&& f.dst == b.subrange(0, 6)
            &&& f.src == b.subrange(6, 12)
            &&& f.vlan is None
            &&& f.ethertype == number_at(b, 12)
            &&& f.appid == number_at(b, 14)
            &&& f.length == number_at(b, 16)
            &&& f.reserved1 == number_at(b, 18)
            &&& f.reserved2 == number_at(b, 20)
            &&& f.apdu == b.subrange(22, 14 + number_at(b, 16))
            &&& f.apdu_offset == 22
        },
{
}

/// A frame with a tag, which stands at 12: the tag's control field is at 14, and everything from
/// the EtherType on stands four octets further.
pub proof fn lemma_tagged(b: Seq<u8>)
    requires
        b.len() >= 26,
        number_at(b, 12) == 0x8100,
        number_at(b, 16) == 0x88B8 || number_at(b, 16) == 0x88BA,
        8 <= number_at(b, 20) <= b.len() - 18,
    ensures
        frame_of(b) matches Ok(f) && {
            &&& f.dst == b.subrange(0, 6)
            &&& f.src == b.subrange(6, 12)
            &&& f.vlan matches Some(v) && v.priority == number_at(b, 14) / 8192 && v.dei == (
            number_at(b, 14) / 4096 % 2 == 1) && v.id == number_at(b, 14) % 4096
            &&& f.ethertype == number_at(b, 16)
            &&& f.appid == number_at(b, 18)
            &&& f.length == number_at(b, 20)
            &&& f.reserved1 == number_at(b, 22)
            &&& f.reserved2 == number_at(b, 24)
            &&& f.apdu == b.subrange(26, 18 + number_at(b, 20))
            &&& f.apdu_offset == 26
        },
{
}

/// What is no frame of the process bus: one too short for its fields, of another EtherType, or with
/// a length that does not fit it.
pub proof fn lemma_no_frame(b: Seq<u8>)
    requires
        b.len() < 22 || (number_at(b, 12) != 0x8100 && number_at(b, 12) != 0x88B8 && number_at(
            b,
            12,
        ) != 0x88BA) || (number_at(b, 12) != 0x8100 && (number_at(b, 16) < 8 || number_at(b, 16)
            > b.len() - 14)),
    ensures
        frame_of(b) is Err,
{
}

/// The address is readable without the rest of the frame.
pub proof fn lemma_address(b: Seq<u8>)
    ensures
        b.len() >= 16 && (number_at(b, 12) == 0x88B8 || number_at(b, 12) == 0x88B9 || number_at(
            b,
            12,
        ) == 0x88BA) ==> (address_of(b) matches Some(a) && a.dst == b.subrange(0, 6) && a.ethertype
            == number_at(b, 12) && a.appid == number_at(b, 14)),
        b.len() >= 20 && number_at(b, 12) == 0x8100 && (number_at(b, 16) == 0x88B8 || number_at(
            b,
            16,
        ) == 0x88B9 || number_at(b, 16) == 0x88BA) ==> (address_of(b) matches Some(a) && a.dst
            == b.subrange(0, 6) && a.ethertype == number_at(b, 16) && a.appid == number_at(b, 18)),
        b.len() < 16 ==> address_of(b) is None,
        b.len() >= 14 && number_at(b, 12) != 0x8100 && number_at(b, 12) != 0x88B8 && number_at(
            b,
            12,
        ) != 0x88B9 && number_at(b, 12) != 0x88BA ==> address_of(b) is None,
{
}

/// What a header writes, octet by octet.
pub proof fn lemma_written(h: FrameHeaderModel, apdu: Seq<u8>)
    requires
        h.dst.len() == 6,
        h.src.len() == 6,
        apdu.len() + 8 <= 65535,
    ensures
        ({
            let b = frame_bytes(h, apdu);
            let i: int = if h.vlan is Some {
                16
            } else {
                12
            };
            &&& b.len() == i + 10 + apdu.len()
            &&& b.subrange(0, 6) == h.dst
            &&& b.subrange(6, 12) == h.src
            &&& h.vlan matches Some(v) ==> number_at(b, 12) == 0x8100 && number_at(b, 14) == (
            v.priority % 8) * 8192 + (if v.dei {
                4096int
            } else {
                0
            }) + v.id % 4096
            &&& number_at(b, i) == h.ethertype
            &&& number_at(b, i + 2) == h.appid
            &&& number_at(b, i + 4) == apdu.len() + 8
            &&& number_at(b, i + 6) == h.reserved1
            &&& number_at(b, i + 8) == h.reserved2
            &&& b.skip(i + 10) == apdu
        }),
{
    let b = frame_bytes(h, apdu);
    let i: int = if h.vlan is Some {
        16
    } else {
        12
    };
    assert(b.subrange(0, 6) =~= h.dst);
    assert(b.subrange(6, 12) =~= h.src);
    assert(b.skip(i + 10) =~= apdu);
}

/// The control field of a tag: three bits of priority, one of drop eligibility, twelve of number.
pub proof fn lemma_control_field(tci: u16, v: VlanTag)
    ensures
        vlan_of(tci).priority == tci / 8192,
        vlan_of(tci).dei == (tci / 4096 % 2 == 1),
        vlan_of(tci).id == tci % 4096,
        v.priority < 8 && v.id < 4096 ==> tci_of(v) == v.priority * 8192 + (if v.dei {
            4096int
        } else {
            0
        }) + v.id,
{
}

} // verus!
