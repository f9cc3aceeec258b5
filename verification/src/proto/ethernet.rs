//! The Ethernet and IEC 61850 link-layer header that GOOSE and sampled values share:
//! destination, source, an optional 802.1Q tag, EtherType, APPID, Length, Reserved1 and
//! Reserved2.

pub mod wire;

use vstd::prelude::*;
use vstd::slice::*;
use crate::ber::{opt_view, two_octets};
use crate::common::{agrees, DecodeReason, Error};

pub use crate::common::MacAddr;

verus! {

/// EtherType of GOOSE.
pub const ETHERTYPE_GOOSE: u16 = 0x88B8;
/// EtherType of GSE management.
pub const ETHERTYPE_GSE_MGMT: u16 = 0x88B9;
/// EtherType of sampled values.
pub const ETHERTYPE_SV: u16 = 0x88BA;
/// EtherType of an 802.1Q tag.
pub const ETHERTYPE_VLAN: u16 = 0x8100;
/// The simulation bit of Reserved1.
pub const RESERVED1_SIMULATION: u16 = 0x8000;

/// An 802.1Q tag.
#[derive(Clone, Copy, Debug, PartialEq, Eq, Hash, Structural)]
pub struct VlanTag {
    /// Priority (0 to 7).
    pub priority: u8,
    /// Drop-eligible indicator.
    pub dei: bool,
    /// VLAN identifier (0 to 4095).
    pub id: u16,
}

/// The control information of a tag: three bits of priority, one of drop eligibility, and
/// twelve of identifier.
pub open spec fn tci_of(v: VlanTag) -> u16 {
    ((v.priority % 8) * 8192 + (if v.dei {
        4096int
    } else {
        0
    }) + v.id % 4096) as u16
}

/// The tag with this control information.
pub open spec fn vlan_of(tci: u16) -> VlanTag {
    VlanTag { priority: (tci / 8192) as u8, dei: (tci / 4096) % 2 == 1, id: (tci % 4096) as u16 }
}

impl Default for VlanTag {
    /// Priority 4, VLAN 0: what GOOSE and sampled values use unless they are told otherwise.
    fn default() -> (r: VlanTag)
        ensures
            r == (VlanTag { priority: 4, dei: false, id: 0 }),
    {
        VlanTag { priority: 4, dei: false, id: 0 }
    }
}

impl VlanTag {
    fn tci(self) -> (r: u16)
        ensures
            r == tci_of(self),
    {
        let dei: u16 = if self.dei {
            4096
        } else {
            0
        };
        (self.priority % 8) as u16 * 8192 + dei + self.id % 4096
    }

    fn from_tci(tci: u16) -> (r: VlanTag)
        ensures
            r == vlan_of(tci),
    {
        VlanTag {
            priority: (tci / 8192) as u8,
            dei: (tci / 4096) % 2 == 1,
            id: tci % 4096,
        }
    }
}

/// The header of a GOOSE or sampled-value frame, borrowing the APDU.
#[derive(Clone, Copy, Debug, PartialEq, Eq)]
pub struct Frame<'a> {
    /// Destination.
    pub dst: MacAddr,
    /// Source.
    pub src: MacAddr,
    /// The VLAN tag, if the frame was tagged.
    pub vlan: Option<VlanTag>,
    /// EtherType: GOOSE or sampled values.
    pub ethertype: u16,
    /// APPID.
    pub appid: u16,
    /// The Length field: APPID to the end of the APDU.
    pub length: u16,
    /// Reserved1 (bit 15 is simulation).
    pub reserved1: u16,
    /// Reserved2.
    pub reserved2: u16,
    /// The APDU.
    pub apdu: &'a [u8],
    /// Where the APDU starts within the frame.
    pub apdu_offset: usize,
}

/// What a [`Frame`] stands for.
pub struct FrameModel {
    pub dst: Seq<u8>,
    pub src: Seq<u8>,
    pub vlan: Option<VlanTag>,
    pub ethertype: u16,
    pub appid: u16,
    pub length: u16,
    pub reserved1: u16,
    pub reserved2: u16,
    pub apdu: Seq<u8>,
    pub apdu_offset: usize,
}

impl<'a> View for Frame<'a> {
    type V = FrameModel;

    open spec fn view(&self) -> FrameModel {
        FrameModel {
            dst: self.dst@,
            src: self.src@,
            vlan: self.vlan,
            ethertype: self.ethertype,
            appid: self.appid,
            length: self.length,
            reserved1: self.reserved1,
            reserved2: self.reserved2,
            apdu: self.apdu@,
            apdu_offset: self.apdu_offset,
        }
    }
}

/// The 16-bit number at index `i`.
pub open spec fn u16_at(b: Seq<u8>, i: int) -> u16 {
    (b[i] * 256 + b[i + 1]) as u16
}

/// Whether an EtherType is that of GOOSE or of sampled values.
pub open spec fn is_data(ethertype: u16) -> bool {
    ethertype == ETHERTYPE_GOOSE || ethertype == ETHERTYPE_SV
}

/// Whether an EtherType belongs to the process bus: GOOSE, its management, or sampled values.
pub open spec fn is_process_bus(ethertype: u16) -> bool {
    is_data(ethertype) || ethertype == ETHERTYPE_GSE_MGMT
}

/// A frame of another kind.
pub open spec fn not_process_bus<T>(offset: usize) -> Result<T, Error> {
    Err(Error::Decode { reason: DecodeReason::NotProcessBusFrame, offset })
}

/// What stands from the EtherType at `pos` on.
pub open spec fn frame_at(b: Seq<u8>, pos: usize, vlan: Option<VlanTag>) -> Result<
    FrameModel,
    Error,
> {
    let p = pos + 2;
    if !is_data(u16_at(b, pos as int)) {
        not_process_bus(pos)
    } else if b.len() < p + 8 {
        not_process_bus(p as usize)
    } else if u16_at(b, p + 2) < 8 {
        Err(Error::Decode { reason: DecodeReason::BadLength, offset: (p + 2) as usize })
    } else if b.len() < p + u16_at(b, p + 2) {
        Err(Error::Decode { reason: DecodeReason::Truncated, offset: (p + 8) as usize })
    } else {
        Ok(
            FrameModel {
                dst: b.subrange(0, 6),
                src: b.subrange(6, 12),
                vlan,
                ethertype: u16_at(b, pos as int),
                appid: u16_at(b, p as int),
                length: u16_at(b, p + 2),
                reserved1: u16_at(b, p + 4),
                reserved2: u16_at(b, p + 6),
                apdu: b.subrange(p + 8, p + u16_at(b, p + 2)),
                apdu_offset: (p + 8) as usize,
            },
        )
    }
}

/// The frame that octets are.
pub open spec fn frame_of(b: Seq<u8>) -> Result<FrameModel, Error> {
    if b.len() < 14 {
        not_process_bus(0)
    } else if u16_at(b, 12) != ETHERTYPE_VLAN {
        frame_at(b, 12, None)
    } else if b.len() < 16 {
        not_process_bus(14)
    } else if b.len() < 18 {
        not_process_bus(16)
    } else {
        frame_at(b, 16, Some(vlan_of(u16_at(b, 14))))
    }
}

fn read_u16(b: &[u8], i: usize) -> (r: u16)
    requires
        i + 1 < b@.len(),
    ensures
        r == u16_at(b@, i as int),
{
    b[i] as u16 * 256 + b[i + 1] as u16
}

fn read_mac(b: &[u8], i: usize) -> (r: MacAddr)
    requires
        i + 6 <= b@.len(),
    ensures
        r@ == b@.subrange(i as int, i + 6),
{
    let r = MacAddr([b[i], b[i + 1], b[i + 2], b[i + 3], b[i + 4], b[i + 5]]);
    assert(r@ =~= b@.subrange(i as int, i + 6));
    r
}

impl<'a> Frame<'a> {
    /// Parse an Ethernet frame. Fails unless the EtherType, after an optional VLAN tag, is that
    /// of GOOSE or of sampled values and the Length field is consistent with the frame.
    pub fn parse(frame: &'a [u8]) -> (r: Result<Frame<'a>, Error>)
        ensures
            agrees(r, frame_of(frame@)),
    {
        if frame.len() < 14 {
            return Err(Error::decode(DecodeReason::NotProcessBusFrame, 0));
        }
        let mut pos: usize = 12;
        let mut vlan: Option<VlanTag> = None;
        if read_u16(frame, 12) == ETHERTYPE_VLAN {
            if frame.len() < 16 {
                return Err(Error::decode(DecodeReason::NotProcessBusFrame, 14));
            }
            if frame.len() < 18 {
                return Err(Error::decode(DecodeReason::NotProcessBusFrame, 16));
            }
            vlan = Some(VlanTag::from_tci(read_u16(frame, 14)));
            pos = 16;
        }
        let ethertype = read_u16(frame, pos);
        if ethertype != ETHERTYPE_GOOSE && ethertype != ETHERTYPE_SV {
            return Err(Error::decode(DecodeReason::NotProcessBusFrame, pos));
        }
        pos = pos + 2;
        if frame.len() < pos + 8 {
            return Err(Error::decode(DecodeReason::NotProcessBusFrame, pos));
        }
        let length = read_u16(frame, pos + 2);
        if length < 8 {
            return Err(Error::decode(DecodeReason::BadLength, pos + 2));
        }
        if frame.len() < pos + length as usize {
            return Err(Error::decode(DecodeReason::Truncated, pos + 8));
        }
        Ok(
            Frame {
                dst: read_mac(frame, 0),
                src: read_mac(frame, 6),
                vlan,
                ethertype,
                appid: read_u16(frame, pos),
                length,
                reserved1: read_u16(frame, pos + 4),
                reserved2: read_u16(frame, pos + 6),
                apdu: slice_subrange(frame, pos + 8, pos + length as usize),
                apdu_offset: pos + 8,
            },
        )
    }

    /// The simulation bit of Reserved1.
    pub fn simulation(&self) -> (r: bool)
        ensures
            r == is_simulated(self@.reserved1),
    {
        self.reserved1 >= RESERVED1_SIMULATION
    }
}

/// The simulation bit of Reserved1, its highest.
pub open spec fn is_simulated(reserved1: u16) -> bool {
    reserved1 >= RESERVED1_SIMULATION
}

/// The addressing fields of a process-bus frame, which can be read even where the rest of it
/// cannot.
#[derive(Clone, Copy, Debug, PartialEq, Eq, Hash)]
pub struct FrameAddress {
    /// Destination.
    pub dst: MacAddr,
    /// EtherType, after an optional VLAN tag.
    pub ethertype: u16,
    /// APPID.
    pub appid: u16,
}

/// What a [`FrameAddress`] stands for.
pub struct FrameAddressModel {
    pub dst: Seq<u8>,
    pub ethertype: u16,
    pub appid: u16,
}

impl View for FrameAddress {
    type V = FrameAddressModel;

    open spec fn view(&self) -> FrameAddressModel {
        FrameAddressModel { dst: self.dst@, ethertype: self.ethertype, appid: self.appid }
    }
}

/// The address of a frame whose EtherType stands at `pos`.
pub open spec fn address_at(b: Seq<u8>, pos: int) -> Option<FrameAddressModel> {
    if b.len() < pos + 2 || !is_process_bus(u16_at(b, pos)) || b.len() < pos + 4 {
        None
    } else {
        Some(
            FrameAddressModel {
                dst: b.subrange(0, 6),
                ethertype: u16_at(b, pos),
                appid: u16_at(b, pos + 2),
            },
        )
    }
}

/// The address of a frame, unless it is too short or not of the process bus.
pub open spec fn address_of(b: Seq<u8>) -> Option<FrameAddressModel> {
    if b.len() >= 14 && u16_at(b, 12) == ETHERTYPE_VLAN {
        address_at(b, 16)
    } else {
        address_at(b, 12)
    }
}

impl FrameAddress {
    /// Read the addressing fields, or `None` if the frame is too short or is not a process-bus
    /// frame at all.
    pub fn peek(frame: &[u8]) -> (r: Option<FrameAddress>)
        ensures
            opt_view(r) == address_of(frame@),
    {
        if frame.len() < 14 {
            return None;
        }
        let pos: usize = if read_u16(frame, 12) == ETHERTYPE_VLAN {
            16
        } else {
            12
        };
        if frame.len() < pos + 2 {
            return None;
        }
        let ethertype = read_u16(frame, pos);
        if ethertype != ETHERTYPE_GOOSE && ethertype != ETHERTYPE_SV && ethertype
            != ETHERTYPE_GSE_MGMT {
            return None;
        }
        if frame.len() < pos + 4 {
            return None;
        }
        Some(FrameAddress { dst: read_mac(frame, 0), ethertype, appid: read_u16(frame, pos + 2) })
    }
}

/// What a frame builder needs to write the link-layer header.
#[derive(Clone, Copy, Debug, PartialEq, Eq)]
pub struct FrameHeader {
    /// Destination.
    pub dst: MacAddr,
    /// Source.
    pub src: MacAddr,
    /// The VLAN tag, or untagged.
    pub vlan: Option<VlanTag>,
    /// EtherType.
    pub ethertype: u16,
    /// APPID.
    pub appid: u16,
    /// Reserved1 (bit 15 is simulation).
    pub reserved1: u16,
    /// Reserved2.
    pub reserved2: u16,
}

/// What a [`FrameHeader`] stands for.
pub struct FrameHeaderModel {
    pub dst: Seq<u8>,
    pub src: Seq<u8>,
    pub vlan: Option<VlanTag>,
    pub ethertype: u16,
    pub appid: u16,
    pub reserved1: u16,
    pub reserved2: u16,
}

impl View for FrameHeader {
    type V = FrameHeaderModel;

    open spec fn view(&self) -> FrameHeaderModel {
        FrameHeaderModel {
            dst: self.dst@,
            src: self.src@,
            vlan: self.vlan,
            ethertype: self.ethertype,
            appid: self.appid,
            reserved1: self.reserved1,
            reserved2: self.reserved2,
        }
    }
}

/// The octets of a VLAN tag, where there is one.
pub open spec fn vlan_octets(v: Option<VlanTag>) -> Seq<u8> {
    match v {
        Some(v) => two_octets(ETHERTYPE_VLAN) + two_octets(tci_of(v)),
        None => Seq::empty(),
    }
}

/// A whole frame.
pub open spec fn frame_bytes(h: FrameHeaderModel, apdu: Seq<u8>) -> Seq<u8> {
    h.dst + (h.src + (vlan_octets(h.vlan) + (two_octets(h.ethertype) + (two_octets(h.appid) + (
    two_octets((apdu.len() + 8) as u16) + (two_octets(h.reserved1) + (two_octets(h.reserved2)
        + apdu)))))))
}

/// How many octets a header occupies.
pub open spec fn header_len(h: FrameHeaderModel) -> nat {
    if h.vlan is Some {
        26
    } else {
        22
    }
}

/// The fault of a frame that cannot be written.
pub open spec fn frame_fault() -> Error {
    Error::Encode("frame buffer too small or APDU too large")
}

/// Put octets behind the `pre` that was put into the buffer `whole` so far.
fn put(
    out: &mut [u8],
    at: usize,
    bytes: &[u8],
    Ghost(pre): Ghost<Seq<u8>>,
    Ghost(whole): Ghost<Seq<u8>>,
)
    requires
        at == pre.len(),
        at + bytes@.len() <= whole.len(),
        old(out)@ == pre + whole.skip(at as int),
    ensures
        final(out)@ == (pre + bytes@) + whole.skip(at + bytes@.len()),
{
    let mut i: usize = 0;
    let n: usize = out.len();
    assert(out@ =~= (pre + bytes@.take(0)) + whole.skip(at as int));
    while i < bytes.len()
        invariant
            i <= bytes@.len(),
            n == whole.len(),
            at == pre.len(),
            at + bytes@.len() <= n,
            out@ == (pre + bytes@.take(i as int)) + whole.skip(at + i),
        decreases bytes.len() - i,
    {
        out[at + i] = bytes[i];
        assert(out@ =~= (pre + bytes@.take(i + 1)) + whole.skip(at + i + 1));
        i += 1;
    }
    assert(bytes@.take(i as int) =~= bytes@);
}

fn put_u16(
    out: &mut [u8],
    at: usize,
    n: u16,
    Ghost(pre): Ghost<Seq<u8>>,
    Ghost(whole): Ghost<Seq<u8>>,
)
    requires
        at == pre.len(),
        at + 2 <= whole.len(),
        old(out)@ == pre + whole.skip(at as int),
    ensures
        final(out)@ == (pre + two_octets(n)) + whole.skip(at + 2),
{
    let b: [u8; 2] = [(n / 256) as u8, (n % 256) as u8];
    assert(b@ =~= two_octets(n));
    put(out, at, &b, Ghost(pre), Ghost(whole));
}

/// The order in which the parts of a frame are put together does not matter.
proof fn lemma_frame_parts(h: FrameHeaderModel, apdu: Seq<u8>)
    ensures
        frame_bytes(h, apdu) == (((((((h.dst + h.src) + vlan_octets(h.vlan)) + two_octets(
            h.ethertype,
        )) + two_octets(h.appid)) + two_octets((apdu.len() + 8) as u16)) + two_octets(h.reserved1))
            + two_octets(h.reserved2)) + apdu,
{
    assert(frame_bytes(h, apdu) =~= (((((((h.dst + h.src) + vlan_octets(h.vlan)) + two_octets(
        h.ethertype,
    )) + two_octets(h.appid)) + two_octets((apdu.len() + 8) as u16)) + two_octets(h.reserved1))
        + two_octets(h.reserved2)) + apdu);
}

impl FrameHeader {
    /// Number of bytes this header occupies.
    pub fn len(&self) -> (r: usize)
        ensures
            r == header_len(self@),
    {
        if self.vlan.is_some() {
            26
        } else {
            22
        }
    }

    /// Write the header followed by `apdu` into `out`, returning the frame length.
    pub fn write(&self, apdu: &[u8], out: &mut [u8]) -> (r: Result<usize, Error>)
        ensures
            ({
                let n = header_len(self@) + apdu@.len();
                if old(out)@.len() < n || apdu@.len() + 8 > 65535 {
                    r == Err::<usize, Error>(frame_fault()) && final(out)@ == old(out)@
                } else {
                    r == Ok::<usize, Error>(n as usize) && final(out)@ == frame_bytes(
                        self@,
                        apdu@,
                    ) + old(out)@.skip(n as int)
                }
            }),
    {
        if apdu.len() > 65527 || out.len() < self.len() + apdu.len() {
            return Err(Error::Encode("frame buffer too small or APDU too large"));
        }
        let total: usize = self.len() + apdu.len();
        let ghost whole = out@;
        let ghost none = Seq::<u8>::empty();
        assert(out@ =~= none + whole.skip(0));
        put(out, 0, &self.dst.0, Ghost(none), Ghost(whole));
        assert(none + self@.dst =~= self@.dst);
        let ghost p1 = self@.dst;
        put(out, 6, &self.src.0, Ghost(p1), Ghost(whole));
        let ghost p2 = p1 + self@.src;
        let mut pos: usize = 12;
        if let Some(v) = self.vlan {
            put_u16(out, 12, ETHERTYPE_VLAN, Ghost(p2), Ghost(whole));
            put_u16(out, 14, v.tci(), Ghost(p2 + two_octets(ETHERTYPE_VLAN)), Ghost(whole));
            pos = 16;
        }
        let ghost p3 = p2 + vlan_octets(self@.vlan);
        assert(out@ =~= p3 + whole.skip(pos as int));
        put_u16(out, pos, self.ethertype, Ghost(p3), Ghost(whole));
        let ghost p4 = p3 + two_octets(self.ethertype);
        put_u16(out, pos + 2, self.appid, Ghost(p4), Ghost(whole));
        let ghost p5 = p4 + two_octets(self.appid);
        put_u16(out, pos + 4, (apdu.len() + 8) as u16, Ghost(p5), Ghost(whole));
        let ghost p6 = p5 + two_octets((apdu@.len() + 8) as u16);
        put_u16(out, pos + 6, self.reserved1, Ghost(p6), Ghost(whole));
        let ghost p7 = p6 + two_octets(self.reserved1);
        put_u16(out, pos + 8, self.reserved2, Ghost(p7), Ghost(whole));
        let ghost p8 = p7 + two_octets(self.reserved2);
        put(out, pos + 10, apdu, Ghost(p8), Ghost(whole));
        proof {
            lemma_frame_parts(self@, apdu@);
        }
        Ok(total)
    }

    /// Build a complete frame.
    pub fn to_frame(&self, apdu: &[u8]) -> (r: Result<Vec<u8>, Error>)
        ensures
            if apdu@.len() + 8 > 65535 {
                r == Err::<Vec<u8>, Error>(frame_fault())
            } else {
                r matches Ok(b) && b@ == frame_bytes(self@, apdu@)
            },
    {
        if apdu.len() > 65527 {
            return Err(Error::Encode("frame buffer too small or APDU too large"));
        }
        let mut v = zeros(self.len() + apdu.len());
        self.write(apdu, v.as_mut_slice())?;
        assert(v@ =~= frame_bytes(self@, apdu@));
        Ok(v)
    }
}

/// A buffer of zeros.
pub fn zeros(n: usize) -> (r: Vec<u8>)
    ensures
        r@ == Seq::new(n as nat, |i: int| 0u8),
{
    let mut v: Vec<u8> = Vec::new();
    while v.len() < n
        invariant
            v.len() <= n,
            forall|i: int| 0 <= i < v.len() ==> v@[i] == 0,
        decreases n - v.len(),
    {
        v.push(0);
    }
    assert(v@ =~= Seq::new(n as nat, |i: int| 0u8));
    v
}

// ---- laws ------------------------------------------------------------------------------

/// A tag whose fields are in range reads back as it was.
pub proof fn lemma_vlan_round_trip(v: VlanTag)
    requires
        v.priority < 8,
        v.id < 4096,
    ensures
        vlan_of(tci_of(v)) == v,
{
}

/// Whether a header can be told from another frame, and its tag is in range.
pub open spec fn header_fits(h: FrameHeaderModel) -> bool {
    &&& h.dst.len() == 6
    &&& h.src.len() == 6
    &&& is_data(h.ethertype)
    &&& h.vlan matches Some(v) ==> v.priority < 8 && v.id < 4096
}

/// What a frame that was written reads as.
pub open spec fn parsed(h: FrameHeaderModel, apdu: Seq<u8>) -> FrameModel {
    FrameModel {
        dst: h.dst,
        src: h.src,
        vlan: h.vlan,
        ethertype: h.ethertype,
        appid: h.appid,
        length: (apdu.len() + 8) as u16,
        reserved1: h.reserved1,
        reserved2: h.reserved2,
        apdu,
        apdu_offset: header_len(h) as usize,
    }
}

/// The number at the front of octets, and what stands behind it.
proof fn lemma_u16_front(n: u16, rest: Seq<u8>)
    ensures
        u16_at(two_octets(n) + rest, 0) == n,
        (two_octets(n) + rest).skip(2) == rest,
{
    assert((two_octets(n) + rest).skip(2) =~= rest);
}

/// What stands at `at` in octets stands at the front of what is left from there on.
proof fn lemma_u16_skip(b: Seq<u8>, k: int, at: int)
    requires
        0 <= k <= at,
        at + 2 <= b.len(),
    ensures
        u16_at(b, at) == u16_at(b.skip(k), at - k),
        b.skip(k).skip(at - k) == b.skip(at),
{
    assert(b.skip(k).skip(at - k) =~= b.skip(at));
}

/// The header fields of a frame from its EtherType on.
proof fn lemma_fields(b: Seq<u8>, pos: int, h: FrameHeaderModel, apdu: Seq<u8>, padding: Seq<u8>)
    requires
        apdu.len() + 8 <= 65535,
        0 <= pos,
        pos + 10 + apdu.len() + padding.len() == b.len(),
        b.skip(pos) == two_octets(h.ethertype) + (two_octets(h.appid) + (two_octets(
            (apdu.len() + 8) as u16,
        ) + (two_octets(h.reserved1) + (two_octets(h.reserved2) + (apdu + padding))))),
    ensures
        u16_at(b, pos) == h.ethertype,
        u16_at(b, pos + 2) == h.appid,
        u16_at(b, pos + 4) == apdu.len() + 8,
        u16_at(b, pos + 6) == h.reserved1,
        u16_at(b, pos + 8) == h.reserved2,
        b.subrange(pos + 10, pos + 10 + apdu.len()) == apdu,
{
    let r5 = apdu + padding;
    let r4 = two_octets(h.reserved2) + r5;
    let r3 = two_octets(h.reserved1) + r4;
    let r2 = two_octets((apdu.len() + 8) as u16) + r3;
    let r1 = two_octets(h.appid) + r2;
    lemma_u16_front(h.ethertype, r1);
    lemma_u16_front(h.appid, r2);
    lemma_u16_front((apdu.len() + 8) as u16, r3);
    lemma_u16_front(h.reserved1, r4);
    lemma_u16_front(h.reserved2, r5);
    lemma_u16_skip(b, pos, pos);
    lemma_u16_skip(b, pos, pos + 2);
    lemma_u16_skip(b, pos + 2, pos + 4);
    lemma_u16_skip(b, pos + 4, pos + 6);
    lemma_u16_skip(b, pos + 6, pos + 8);
    assert(b.skip(pos + 8).skip(2) =~= b.skip(pos + 10));
    assert(b.subrange(pos + 10, pos + 10 + apdu.len()) =~= (apdu + padding).take(
        apdu.len() as int,
    ));
    assert((apdu + padding).take(apdu.len() as int) =~= apdu);
}

/// The parts of a frame before its EtherType.
proof fn lemma_front(h: FrameHeaderModel, apdu: Seq<u8>, padding: Seq<u8>)
    requires
        header_fits(h),
    ensures
        ({
            let b = frame_bytes(h, apdu) + padding;
            let pos = header_len(h) - 10;
            &&& b.len() == header_len(h) + apdu.len() + padding.len()
            &&& b.subrange(0, 6) == h.dst
            &&& b.subrange(6, 12) == h.src
            &&& h.vlan matches Some(v) ==> u16_at(b, 12) == ETHERTYPE_VLAN && u16_at(b, 14)
                == tci_of(v)
            &&& b.skip(pos) == two_octets(h.ethertype) + (two_octets(h.appid) + (two_octets(
                (apdu.len() + 8) as u16,
            ) + (two_octets(h.reserved1) + (two_octets(h.reserved2) + (apdu + padding)))))
        }),
{
    let r = two_octets(h.ethertype) + (two_octets(h.appid) + (two_octets((apdu.len() + 8) as u16)
        + (two_octets(h.reserved1) + (two_octets(h.reserved2) + apdu))));
    let b = frame_bytes(h, apdu) + padding;
    let v = vlan_octets(h.vlan);
    assert(frame_bytes(h, apdu) == h.dst + (h.src + (v + r)));
    assert(b =~= h.dst + (h.src + (v + (r + padding))));
    assert(r + padding =~= two_octets(h.ethertype) + (two_octets(h.appid) + (two_octets(
        (apdu.len() + 8) as u16,
    ) + (two_octets(h.reserved1) + (two_octets(h.reserved2) + (apdu + padding))))));
    assert(b.subrange(0, 6) =~= h.dst);
    assert(b.subrange(6, 12) =~= h.src);
    assert(b.skip(12 + v.len() as int) =~= r + padding);
}

/// A frame that was written reads back, whatever pads it.
pub proof fn lemma_frame_round_trip(h: FrameHeaderModel, apdu: Seq<u8>, padding: Seq<u8>)
    requires
        header_fits(h),
        apdu.len() + 8 <= 65535,
    ensures
        frame_of(frame_bytes(h, apdu) + padding) == Ok::<FrameModel, Error>(parsed(h, apdu)),
        frame_bytes(h, apdu).len() == header_len(h) + apdu.len(),
{
    let b = frame_bytes(h, apdu) + padding;
    lemma_front(h, apdu, padding);
    lemma_fields(b, header_len(h) - 10, h, apdu, padding);
    if let Some(v) = h.vlan {
        lemma_vlan_round_trip(v);
    }
}

/// The address of a frame is readable in every prefix that reaches past it, even where the
/// frame itself is not.
pub proof fn lemma_address_survives(b: Seq<u8>, n: int)
    requires
        frame_of(b) matches Ok(f) && f.apdu_offset - 6 <= n <= b.len(),
    ensures
        frame_of(b) matches Ok(f) && address_of(b.take(n)) == Some(
            FrameAddressModel { dst: f.dst, ethertype: f.ethertype, appid: f.appid },
        ),
{
    assert(b.take(n).subrange(0, 6) =~= b.subrange(0, 6));
}

} // verus!
