//! The GOOSE APDU.

use vstd::prelude::*;
use vstd::slice::*;
use vstd::string::*;
use crate::ber::{duplicate_text, laws, opt_str};
use crate::ber::{
    app_cons, bool_octets, ctx, ctx_cons, first_fault, octets_of, opt_text_bytes, opt_text_fault,
    opt_view, sint_octets, text_fault, tlv, utc_octets, wrote, Cursor, CursorModel, Encoder, Tag,
    Tlv, TlvModel,
};
use crate::common::{agrees, Error, Limits, UtcTime};
use crate::proto::data::{
    self, agrees_values, collected, data_of, duplicate_all, fits, lemma_values_round_trip, models,
    values_bytes, values_fault, DataModel, DataView, Value, ValueModel,
};

verus! {

/// A zero-copy view of a decoded `goosePdu`.
#[derive(Clone, Copy, Debug, PartialEq, Eq)]
pub struct GoosePduView<'a> {
    /// `gocbRef`.
    pub gocb_ref: &'a str,
    /// `timeAllowedtoLive` in milliseconds.
    pub time_allowed_to_live: u32,
    /// `datSet`.
    pub dat_set: &'a str,
    /// `goID`, if present.
    pub go_id: Option<&'a str>,
    /// `t`: the time of the last state change, as the publisher stamped it.
    pub t: UtcTime,
    /// `stNum`.
    pub st_num: u32,
    /// `sqNum`.
    pub sq_num: u32,
    /// `simulation`.
    pub simulation: bool,
    /// `confRev`.
    pub conf_rev: u32,
    /// `ndsCom`.
    pub nds_com: bool,
    /// `numDatSetEntries`, as the publisher declared it.
    pub num_dat_set_entries: u32,
    /// The `allData` element.
    pub members: Tlv<'a>,
    /// `security`, raw, if present.
    pub security: Option<&'a [u8]>,
    /// The whole APDU.
    pub raw: &'a [u8],
}

/// What a [`GoosePduView`] stands for.
pub struct GooseModel {
    pub header: GooseHeaderModel,
    pub members: TlvModel,
    pub security: Option<Seq<u8>>,
    pub raw: Seq<u8>,
}

/// What a [`GooseHeader`] stands for.
pub struct GooseHeaderModel {
    pub gocb_ref: Seq<char>,
    pub time_allowed_to_live: u32,
    pub dat_set: Seq<char>,
    pub go_id: Option<Seq<char>>,
    pub t: UtcTime,
    pub st_num: u32,
    pub sq_num: u32,
    pub simulation: bool,
    pub conf_rev: u32,
    pub nds_com: bool,
    pub num_dat_set_entries: u32,
}

impl<'a> View for GoosePduView<'a> {
    type V = GooseModel;

    open spec fn view(&self) -> GooseModel {
        GooseModel {
            header: GooseHeaderModel {
                gocb_ref: self.gocb_ref@,
                time_allowed_to_live: self.time_allowed_to_live,
                dat_set: self.dat_set@,
                go_id: opt_view(self.go_id),
                t: self.t,
                st_num: self.st_num,
                sq_num: self.sq_num,
                simulation: self.simulation,
                conf_rev: self.conf_rev,
                nds_com: self.nds_com,
                num_dat_set_entries: self.num_dat_set_entries,
            },
            members: self.members@,
            security: opt_view(self.security),
            raw: self.raw@,
        }
    }
}

/// Everything in a `goosePdu` except the data set: what a publisher varies from frame to frame.
#[derive(Clone, Copy, Debug, PartialEq, Eq)]
pub struct GooseHeader<'a> {
    /// `gocbRef`.
    pub gocb_ref: &'a str,
    /// `timeAllowedtoLive` in milliseconds.
    pub time_allowed_to_live: u32,
    /// `datSet`.
    pub dat_set: &'a str,
    /// `goID`.
    pub go_id: Option<&'a str>,
    /// `t`.
    pub t: UtcTime,
    /// `stNum`.
    pub st_num: u32,
    /// `sqNum`.
    pub sq_num: u32,
    /// `simulation`.
    pub simulation: bool,
    /// `confRev`.
    pub conf_rev: u32,
    /// `ndsCom`.
    pub nds_com: bool,
    /// `numDatSetEntries`.
    pub num_dat_set_entries: u32,
}

impl<'a> View for GooseHeader<'a> {
    type V = GooseHeaderModel;

    open spec fn view(&self) -> GooseHeaderModel {
        GooseHeaderModel {
            gocb_ref: self.gocb_ref@,
            time_allowed_to_live: self.time_allowed_to_live,
            dat_set: self.dat_set@,
            go_id: opt_view(self.go_id),
            t: self.t,
            st_num: self.st_num,
            sq_num: self.sq_num,
            simulation: self.simulation,
            conf_rev: self.conf_rev,
            nds_com: self.nds_com,
            num_dat_set_entries: self.num_dat_set_entries,
        }
    }
}

// ---- decoding --------------------------------------------------------------------------

/// The first fields, `gocbRef` to `sqNum`, and what stands behind them.
pub open spec fn head_of(c0: CursorModel) -> Result<(GooseHeaderModel, CursorModel), Error> {
    let c1 = c0.rest();
    let c2 = c1.rest();
    let c3 = c2.rest();
    let c4 = c3.skip_optional(ctx(3));
    let c5 = c4.rest();
    let c6 = c5.rest();
    match c0.visible(ctx(0)) {
        Err(e) => Err(e),
        Ok(gocb_ref) => match c1.unsigned32(ctx(1)) {
            Err(e) => Err(e),
            Ok(time_allowed_to_live) => match c2.visible(ctx(2)) {
                Err(e) => Err(e),
                Ok(dat_set) => match c3.opt_visible(ctx(3)) {
                    Err(e) => Err(e),
                    Ok(go_id) => match utc_at(c4, ctx(4)) {
                        Err(e) => Err(e),
                        Ok(t) => match c5.unsigned32(ctx(5)) {
                            Err(e) => Err(e),
                            Ok(st_num) => match c6.unsigned32(ctx(6)) {
                                Err(e) => Err(e),
                                Ok(sq_num) => Ok(
                                    (
                                        GooseHeaderModel {
                                            gocb_ref,
                                            time_allowed_to_live,
                                            dat_set,
                                            go_id,
                                            t,
                                            st_num,
                                            sq_num,
                                            simulation: false,
                                            conf_rev: 0,
                                            nds_com: false,
                                            num_dat_set_entries: 0,
                                        },
                                        c6.rest(),
                                    ),
                                ),
                            },
                        },
                    },
                },
            },
        },
    }
}

/// A time under `tag`.
pub open spec fn utc_at(c: CursorModel, tag: Tag) -> Result<UtcTime, Error> {
    match c.tagged(tag) {
        Err(e) => Err(e),
        Ok(t) => t.utc(),
    }
}

/// The fields from `simulation` to `numDatSetEntries`. The two flags may be left out.
pub open spec fn flags_of(c7: CursorModel, h: GooseHeaderModel) -> Result<
    (GooseHeaderModel, CursorModel),
    Error,
> {
    let c8 = c7.skip_optional(ctx(7));
    let c9 = c8.rest();
    let c10 = c9.skip_optional(ctx(9));
    match c7.flag(ctx(7), false) {
        Err(e) => Err(e),
        Ok(simulation) => match c8.unsigned32(ctx(8)) {
            Err(e) => Err(e),
            Ok(conf_rev) => match c9.flag(ctx(9), false) {
                Err(e) => Err(e),
                Ok(nds_com) => match c10.unsigned32(ctx(10)) {
                    Err(e) => Err(e),
                    Ok(num_dat_set_entries) => Ok(
                        (
                            GooseHeaderModel {
                                simulation,
                                conf_rev,
                                nds_com,
                                num_dat_set_entries,
                                ..h
                            },
                            c10.rest(),
                        ),
                    ),
                },
            },
        },
    }
}

/// The `security` extension, constructed or primitive, and what stands behind it.
pub open spec fn security_of(c: CursorModel) -> Result<(Option<Seq<u8>>, CursorModel), Error> {
    match c.optional(ctx_cons(12)) {
        Err(e) => Err(e),
        Ok(Some(t)) => Ok((Some(t.value), c.rest())),
        Ok(None) => match c.optional(ctx(12)) {
            Err(e) => Err(e),
            Ok(Some(t)) => Ok((Some(t.value), c.rest())),
            Ok(None) => Ok((None, c)),
        },
    }
}

/// The first `n` octets, or all where there are fewer.
pub open spec fn prefix(b: Seq<u8>, n: nat) -> Seq<u8> {
    if n <= b.len() {
        b.take(n as int)
    } else {
        b
    }
}

/// `allData` and what stands behind it.
pub open spec fn members_of(c: CursorModel, h: GooseHeaderModel, raw: Seq<u8>) -> Result<
    GooseModel,
    Error,
> {
    match c.tagged(ctx_cons(11)) {
        Err(e) => Err(e),
        Ok(members) => match security_of(c.rest()) {
            Err(e) => Err(e),
            Ok((security, end)) => match end.finish() {
                Err(e) => Err(e),
                Ok(_) => Ok(GooseModel { header: h, members, security, raw }),
            },
        },
    }
}

/// The PDU that octets start with.
pub open spec fn goose_of(apdu: Seq<u8>) -> Result<GooseModel, Error> {
    match (CursorModel { bytes: apdu, offset: 0 }).tagged(app_cons(1)) {
        Err(e) => Err(e),
        Ok(pdu) => match head_of(pdu.children()) {
            Err(e) => Err(e),
            Ok((h, c7)) => match flags_of(c7, h) {
                Err(e) => Err(e),
                Ok((h, c11)) => members_of(c11, h, prefix(apdu, pdu.total_len() as nat)),
            },
        },
    }
}

/// How many elements a cursor still holds, unless one does not decode.
pub open spec fn count_of(c: CursorModel) -> Option<nat>
    decreases c.bytes.len(),
    via count_of_shrinks
{
    if c.bytes.len() == 0 {
        Some(0)
    } else if c.first() is Err {
        None
    } else {
        match count_of(c.rest()) {
            Some(n) => Some(n + 1),
            None => None,
        }
    }
}

#[via_fn]
proof fn count_of_shrinks(c: CursorModel) {
    laws::lemma_progress(c);
}

/// The members a cursor still holds. One that is no element at all is the last.
pub open spec fn items_of(c: CursorModel) -> Seq<Result<DataModel, Error>>
    decreases c.bytes.len(),
    via items_of_shrinks
{
    if c.bytes.len() == 0 {
        Seq::empty()
    } else {
        match c.first() {
            Err(e) => seq![Err(e)],
            Ok(t) => seq![data_of(t)] + items_of(c.rest()),
        }
    }
}

#[via_fn]
proof fn items_of_shrinks(c: CursorModel) {
    laws::lemma_progress(c);
}

/// `goosePdu [APPLICATION 1]`.
pub fn tag_goose_pdu() -> (r: Tag)
    ensures
        r == app_cons(1),
{
    Tag::application_constructed(1)
}

impl<'a> GoosePduView<'a> {
    /// Decode a GOOSE APDU.
    pub fn parse(apdu: &'a [u8]) -> (r: Result<GoosePduView<'a>, Error>)
        ensures
            agrees(r, goose_of(apdu@)),
    {
        let pdu = Cursor::new(apdu).next_tag(tag_goose_pdu())?;
        let mut c = pdu.children();
        let gocb_ref = c.next_tag(Tag::context(0))?.visible_string()?;
        let time_allowed_to_live = c.next_tag(Tag::context(1))?.unsigned_lenient_u32()?;
        let dat_set = c.next_tag(Tag::context(2))?.visible_string()?;
        let go_id = c.next_opt_visible(Tag::context(3))?;
        let t = c.next_tag(Tag::context(4))?.utc_time()?;
        let st_num = c.next_tag(Tag::context(5))?.unsigned_lenient_u32()?;
        let sq_num = c.next_tag(Tag::context(6))?.unsigned_lenient_u32()?;
        let simulation = c.next_flag(Tag::context(7), false)?;
        let conf_rev = c.next_tag(Tag::context(8))?.unsigned_lenient_u32()?;
        let nds_com = c.next_flag(Tag::context(9), false)?;
        let num_dat_set_entries = c.next_tag(Tag::context(10))?.unsigned_lenient_u32()?;
        let members = c.next_tag(Tag::context_constructed(11))?;
        let security = match c.next_if_tag(Tag::context_constructed(12))? {
            Some(t) => Some(t.value),
            None => match c.next_if_tag(Tag::context(12))? {
                Some(t) => Some(t.value),
                None => None,
            },
        };
        c.finish()?;
        let total: usize = pdu.total_len();
        let raw = if total <= apdu.len() {
            slice_subrange(apdu, 0, total)
        } else {
            apdu
        };
        assert(raw@ =~= prefix(apdu@, total as nat));
        Ok(
            GoosePduView {
                gocb_ref,
                time_allowed_to_live,
                dat_set,
                go_id,
                t,
                st_num,
                sq_num,
                simulation,
                conf_rev,
                nds_com,
                num_dat_set_entries,
                members,
                security,
                raw,
            },
        )
    }

    /// The encoded members of `allData`, back to back.
    pub fn all_data_bytes(&self) -> (r: &'a [u8])
        ensures
            r@ == self@.members.value,
    {
        self.members.value
    }

    /// The `allData` members as borrowed views, in order.
    pub fn all_data(&self) -> (r: Vec<Result<DataView<'a>, Error>>)
        ensures
            r@.len() == items_of(self@.members.children()).len(),
            forall|i: int|
                0 <= i < r@.len() ==> agrees(
                    #[trigger] r@[i],
                    items_of(self@.members.children())[i],
                ),
    {
        let mut out: Vec<Result<DataView<'a>, Error>> = Vec::new();
        let mut c = self.members.children();
        let ghost all = items_of(c@);
        while !c.is_empty()
            invariant
                all == items_of(self@.members.children()),
                out@.len() + items_of(c@).len() == all.len(),
                all.skip(out@.len() as int) == items_of(c@),
                forall|i: int| 0 <= i < out@.len() ==> agrees(#[trigger] out@[i], all[i]),
            decreases c@.bytes.len(),
        {
            proof {
                laws::lemma_progress(c@);
            }
            let ghost here = items_of(c@);
            let ghost n = out@.len() as int;
            assert(all.skip(n)[0] == all[n]);
            match c.next_required() {
                Ok(t) => {
                    assert(here.skip(1) =~= items_of(c@));
                    assert(all.skip(n).skip(1) =~= all.skip(n + 1));
                    out.push(DataView::from_tlv(t));
                },
                Err(e) => {
                    out.push(Err(e));
                    return out;
                },
            }
        }
        out
    }

    /// Decode `allData` into owned values, within `limits`.
    pub fn all_data_owned(&self, limits: &Limits) -> (r: Result<Vec<Value>, Error>)
        ensures
            agrees_values(r, collected(self@.members.children(), *limits, 0, Seq::empty())),
    {
        data::collect(self.members.children(), limits)
    }

    /// How many members are present, or `None` if they do not decode.
    pub fn member_count(&self) -> (r: Option<usize>)
        ensures
            match r {
                Some(n) => count_of(self@.members.children()) == Some(n as nat),
                None => count_of(self@.members.children()) is None,
            },
    {
        let mut n: usize = 0;
        let total: usize = self.members.value.len();
        let mut c = self.members.children();
        while !c.is_empty()
            invariant
                n + c@.bytes.len() <= total,
                count_of(self@.members.children()) == match count_of(c@) {
                    Some(k) => Some((n + k) as nat),
                    None => None,
                },
            decreases c@.bytes.len(),
        {
            proof {
                laws::lemma_progress(c@);
            }
            if c.next_required().is_err() {
                return None;
            }
            n += 1;
        }
        Some(n)
    }

    /// Whether `numDatSetEntries` agrees with the members present.
    pub fn member_count_matches(&self) -> (r: bool)
        ensures
            r == counts_match(self@),
    {
        match self.member_count() {
            Some(n) => n == self.num_dat_set_entries as usize,
            None => false,
        }
    }
}

/// Whether `numDatSetEntries` agrees with the members present.
pub open spec fn counts_match(m: GooseModel) -> bool {
    count_of(m.members.children()) == Some(m.header.num_dat_set_entries as nat)
}

// ---- encoding --------------------------------------------------------------------------

/// The last fields of a PDU, `simulation` to `allData`. The flags are always written.
pub open spec fn flags_contents(h: GooseHeaderModel, body: Seq<u8>) -> Seq<u8> {
    tlv(ctx(7), bool_octets(h.simulation)) + (tlv(ctx(8), sint_octets(h.conf_rev as int)) + (tlv(
        ctx(9),
        bool_octets(h.nds_com),
    ) + (tlv(ctx(10), sint_octets(h.num_dat_set_entries as int)) + tlv(ctx_cons(11), body))))
}

/// The contents of a PDU.
pub open spec fn goose_contents(h: GooseHeaderModel, body: Seq<u8>) -> Seq<u8> {
    tlv(ctx(0), octets_of(h.gocb_ref)) + (tlv(ctx(1), sint_octets(h.time_allowed_to_live as int))
        + (tlv(ctx(2), octets_of(h.dat_set)) + (opt_text_bytes(ctx(3), h.go_id) + (tlv(
        ctx(4),
        utc_octets(h.t),
    ) + (tlv(ctx(5), sint_octets(h.st_num as int)) + (tlv(ctx(6), sint_octets(h.sq_num as int))
        + flags_contents(h, body)))))))
}

/// A PDU with these members.
pub open spec fn goose_bytes(h: GooseHeaderModel, body: Seq<u8>) -> Seq<u8> {
    tlv(app_cons(1), goose_contents(h, body))
}

/// Why a PDU has no encoding.
pub open spec fn goose_fault(h: GooseHeaderModel) -> Option<Error> {
    first_fault(
        text_fault(h.gocb_ref),
        first_fault(text_fault(h.dat_set), opt_text_fault(h.go_id)),
    )
}

fn write_flags(header: &GooseHeader<'_>, body: &[u8], e: &mut Encoder)
    ensures
        final(e)@ == old(e)@ + flags_contents(header@, body@),
{
    e.boolean(Tag::context(7), header.simulation);
    e.unsigned(Tag::context(8), header.conf_rev as u64);
    e.boolean(Tag::context(9), header.nds_com);
    e.unsigned(Tag::context(10), header.num_dat_set_entries as u64);
    e.primitive(Tag::context_constructed(11), body);
    assert(e@ =~= old(e)@ + flags_contents(header@, body@));
}

/// Encode a `goosePdu` from a header and encoded members into `out`.
pub fn encode_into(header: &GooseHeader<'_>, all_data_body: &[u8], out: &mut Encoder) -> (r: Result<
    (),
    Error,
>)
    ensures
        wrote(
            r,
            old(out)@,
            final(out)@,
            goose_fault(header@),
            goose_bytes(header@, all_data_body@),
        ),
{
    let start: usize = out.len();
    out.visible_string(Tag::context(0), header.gocb_ref)?;
    out.unsigned(Tag::context(1), header.time_allowed_to_live as u64);
    if let Err(f) = out.visible_string(Tag::context(2), header.dat_set) {
        out.truncate(start);
        assert(out@ =~= old(out)@);
        return Err(f);
    }
    if let Err(f) = out.opt_visible_string(Tag::context(3), header.go_id) {
        out.truncate(start);
        assert(out@ =~= old(out)@);
        return Err(f);
    }
    let ghost h = header@;
    let ghost p3 = tlv(ctx(0), octets_of(h.gocb_ref)) + (tlv(
        ctx(1),
        sint_octets(h.time_allowed_to_live as int),
    ) + (tlv(ctx(2), octets_of(h.dat_set)) + opt_text_bytes(ctx(3), h.go_id)));
    assert(out@ =~= old(out)@ + p3);
    out.utc_time(Tag::context(4), header.t);
    out.unsigned(Tag::context(5), header.st_num as u64);
    out.unsigned(Tag::context(6), header.sq_num as u64);
    write_flags(header, all_data_body, out);
    proof {
        let p6 = tlv(ctx(4), utc_octets(h.t)) + (tlv(ctx(5), sint_octets(h.st_num as int)) + (tlv(
            ctx(6),
            sint_octets(h.sq_num as int),
        ) + flags_contents(h, all_data_body@)));
        assert(out@ =~= old(out)@ + (p3 + p6));
        assert(p3 + p6 =~= goose_contents(h, all_data_body@));
        assert(out@.take(start as int) =~= old(out)@);
        assert(out@.skip(start as int) =~= goose_contents(h, all_data_body@));
    }
    out.enclose(start, tag_goose_pdu());
    Ok(())
}

/// The owned, encodable form of a `goosePdu`.
#[derive(Debug, PartialEq)]
pub struct GoosePdu {
    /// `gocbRef`.
    pub gocb_ref: String,
    /// `timeAllowedtoLive` in milliseconds.
    pub time_allowed_to_live: u32,
    /// `datSet`.
    pub dat_set: String,
    /// `goID`.
    pub go_id: Option<String>,
    /// `t`.
    pub t: UtcTime,
    /// `stNum`.
    pub st_num: u32,
    /// `sqNum`.
    pub sq_num: u32,
    /// `simulation`.
    pub simulation: bool,
    /// `confRev`.
    pub conf_rev: u32,
    /// `ndsCom`.
    pub nds_com: bool,
    /// The data set members.
    pub all_data: Vec<Value>,
}

/// A number of members in 32 bits.
pub open spec fn count32(n: nat) -> u32 {
    (n % 0x1_0000_0000) as u32
}

/// A number of members in 32 bits.
pub fn to_count32(n: usize) -> (r: u32)
    ensures
        r == count32(n as nat),
{
    (n as u64 % 0x1_0000_0000) as u32
}

/// What a [`GoosePdu`] stands for: its header, and its members.
pub struct GoosePduModel {
    pub header: GooseHeaderModel,
    pub all_data: Seq<ValueModel>,
}

impl View for GoosePdu {
    type V = GoosePduModel;

    open spec fn view(&self) -> GoosePduModel {
        GoosePduModel {
            header: GooseHeaderModel {
                gocb_ref: self.gocb_ref@,
                time_allowed_to_live: self.time_allowed_to_live,
                dat_set: self.dat_set@,
                go_id: opt_view(self.go_id),
                t: self.t,
                st_num: self.st_num,
                sq_num: self.sq_num,
                simulation: self.simulation,
                conf_rev: self.conf_rev,
                nds_com: self.nds_com,
                num_dat_set_entries: count32(self.all_data@.len()),
            },
            all_data: models(self.all_data@),
        }
    }
}

impl Clone for GoosePdu {
    fn clone(&self) -> (r: GoosePdu)
        ensures
            r@ == self@,
    {
        let all_data = duplicate_all(&self.all_data);
        assert(models(all_data@).len() == models(self.all_data@).len());
        GoosePdu {
            gocb_ref: self.gocb_ref.clone(),
            time_allowed_to_live: self.time_allowed_to_live,
            dat_set: self.dat_set.clone(),
            go_id: duplicate_text(&self.go_id),
            t: self.t,
            st_num: self.st_num,
            sq_num: self.sq_num,
            simulation: self.simulation,
            conf_rev: self.conf_rev,
            nds_com: self.nds_com,
            all_data,
        }
    }
}

/// The owned form of a view, its members decoded within `limits`.
pub open spec fn owned_pdu(v: GooseModel, limits: Limits) -> Result<GoosePduModel, Error> {
    match collected(v.members.children(), limits, 0, Seq::empty()) {
        Err(e) => Err(e),
        Ok(all_data) => Ok(
            GoosePduModel {
                header: GooseHeaderModel {
                    num_dat_set_entries: count32(all_data.len()),
                    ..v.header
                },
                all_data,
            },
        ),
    }
}

impl GoosePdu {
    /// The header of this PDU. `numDatSetEntries` is the number of its members.
    pub fn header(&self) -> (r: GooseHeader<'_>)
        ensures
            r@ == self@.header,
    {
        GooseHeader {
            gocb_ref: self.gocb_ref.as_str(),
            time_allowed_to_live: self.time_allowed_to_live,
            dat_set: self.dat_set.as_str(),
            go_id: opt_str(&self.go_id),
            t: self.t,
            st_num: self.st_num,
            sq_num: self.sq_num,
            simulation: self.simulation,
            conf_rev: self.conf_rev,
            nds_com: self.nds_com,
            num_dat_set_entries: to_count32(self.all_data.len()),
        }
    }

    /// Encode as an APDU.
    pub fn encode(&self) -> (r: Result<Vec<u8>, Error>)
        ensures
            match first_fault(values_fault(self@.all_data), goose_fault(self@.header)) {
                None => r matches Ok(b) && b@ == goose_bytes(
                    self@.header,
                    values_bytes(self@.all_data),
                ),
                Some(f) => r == Err::<Vec<u8>, Error>(f),
            },
    {
        let body = Value::encode_all(self.all_data.as_slice())?;
        let mut e = Encoder::new();
        encode_into(&self.header(), &body, &mut e)?;
        assert(e@ =~= goose_bytes(self@.header, body@));
        Ok(e.into_vec())
    }

    /// Build an owned PDU from a view.
    pub fn from_view(v: &GoosePduView<'_>, limits: &Limits) -> (r: Result<GoosePdu, Error>)
        ensures
            agrees(r, owned_pdu(v@, *limits)),
    {
        let all_data = v.all_data_owned(limits)?;
        Ok(
            GoosePdu {
                gocb_ref: v.gocb_ref.to_owned(),
                time_allowed_to_live: v.time_allowed_to_live,
                dat_set: v.dat_set.to_owned(),
                go_id: match v.go_id {
                    Some(s) => Some(s.to_owned()),
                    None => None,
                },
                t: v.t,
                st_num: v.st_num,
                sq_num: v.sq_num,
                simulation: v.simulation,
                conf_rev: v.conf_rev,
                nds_com: v.nds_com,
                all_data,
            },
        )
    }
}

// ---- laws ------------------------------------------------------------------------------

proof fn lemma_bool(tag: Tag, v: bool, r: Seq<u8>, offset: usize)
    ensures
        ({
            let c = CursorModel { bytes: tlv(tag, bool_octets(v)) + r, offset };
            c.flag(tag, false) == Ok::<bool, Error>(v) && c.skip_optional(tag).bytes == r
        }),
{
    laws::lemma_present(tag, bool_octets(v), r, offset);
}

proof fn lemma_utc(tag: Tag, t: UtcTime, r: Seq<u8>, offset: usize)
    ensures
        ({
            let c = CursorModel { bytes: tlv(tag, utc_octets(t)) + r, offset };
            utc_at(c, tag) == Ok::<UtcTime, Error>(t) && c.rest().bytes == r
        }),
{
    laws::lemma_pow256();
    laws::lemma_be_fixed(t.raw as nat, 8);
    laws::lemma_first(tag, utc_octets(t), r, offset);
}

proof fn lemma_flags_round_trip(
    h: GooseHeaderModel,
    body: Seq<u8>,
    start: GooseHeaderModel,
    offset: usize,
) -> (at: usize)
    requires
        body.len() <= u64::MAX,
        start == (GooseHeaderModel {
            simulation: false,
            conf_rev: 0,
            nds_com: false,
            num_dat_set_entries: 0,
            ..h
        }),
    ensures
        flags_of(CursorModel { bytes: flags_contents(h, body), offset }, start) == Ok::<
            (GooseHeaderModel, CursorModel),
            Error,
        >((h, CursorModel { bytes: tlv(ctx_cons(11), body), offset: at })),
{
    let p11 = tlv(ctx_cons(11), body);
    let p10 = tlv(ctx(10), sint_octets(h.num_dat_set_entries as int)) + p11;
    let p9 = tlv(ctx(9), bool_octets(h.nds_com)) + p10;
    let p8 = tlv(ctx(8), sint_octets(h.conf_rev as int)) + p9;
    let c7 = CursorModel { bytes: flags_contents(h, body), offset };
    lemma_bool(ctx(7), h.simulation, p8, offset);
    let c8 = c7.skip_optional(ctx(7));
    laws::lemma_unsigned32(ctx(8), h.conf_rev, p9, c8.offset);
    let c9 = c8.rest();
    lemma_bool(ctx(9), h.nds_com, p10, c9.offset);
    let c10 = c9.skip_optional(ctx(9));
    laws::lemma_unsigned32(ctx(10), h.num_dat_set_entries, p11, c10.offset);
    c10.rest().offset
}

proof fn lemma_head_round_trip(h: GooseHeaderModel, body: Seq<u8>, offset: usize) -> (at: usize)
    requires
        goose_fault(h) is None,
        goose_contents(h, body).len() <= u64::MAX,
    ensures
        head_of(CursorModel { bytes: goose_contents(h, body), offset }) == Ok::<
            (GooseHeaderModel, CursorModel),
            Error,
        >(
            (
                GooseHeaderModel {
                    simulation: false,
                    conf_rev: 0,
                    nds_com: false,
                    num_dat_set_entries: 0,
                    ..h
                },
                CursorModel { bytes: flags_contents(h, body), offset: at },
            ),
        ),
{
    broadcast use laws::lemma_tlv_len;

    let p7 = flags_contents(h, body);
    let p6 = tlv(ctx(6), sint_octets(h.sq_num as int)) + p7;
    let p5 = tlv(ctx(5), sint_octets(h.st_num as int)) + p6;
    let p4 = tlv(ctx(4), utc_octets(h.t)) + p5;
    let p3 = opt_text_bytes(ctx(3), h.go_id) + p4;
    let p2 = tlv(ctx(2), octets_of(h.dat_set)) + p3;
    let p1 = tlv(ctx(1), sint_octets(h.time_allowed_to_live as int)) + p2;
    let c0 = CursorModel { bytes: goose_contents(h, body), offset };
    laws::lemma_visible(ctx(0), h.gocb_ref, p1, offset);
    let c1 = c0.rest();
    laws::lemma_unsigned32(ctx(1), h.time_allowed_to_live, p2, c1.offset);
    let c2 = c1.rest();
    laws::lemma_visible(ctx(2), h.dat_set, p3, c2.offset);
    let c3 = c2.rest();
    laws::lemma_be_fixed(h.t.raw as nat, 8);
    laws::lemma_lacks(ctx(4), utc_octets(h.t), p5, ctx(3));
    laws::lemma_opt_text(ctx(3), h.go_id, p4, c3.offset);
    let c4 = c3.skip_optional(ctx(3));
    lemma_utc(ctx(4), h.t, p5, c4.offset);
    let c5 = c4.rest();
    laws::lemma_unsigned32(ctx(5), h.st_num, p6, c5.offset);
    let c6 = c5.rest();
    laws::lemma_unsigned32(ctx(6), h.sq_num, p7, c6.offset);
    c6.rest().offset
}

/// A PDU that was encoded reads back: its header, its members as they were encoded, and the
/// whole of it as what was received, whatever follows it.
pub proof fn lemma_goose_round_trip(h: GooseHeaderModel, body: Seq<u8>, after: Seq<u8>)
    requires
        goose_fault(h) is None,
        goose_bytes(h, body).len() <= usize::MAX,
    ensures
        goose_of(goose_bytes(h, body) + after) matches Ok(m) && m.header == h && m.members.value
            == body && m.members.tag == ctx_cons(11) && m.security is None && m.raw == goose_bytes(
            h,
            body,
        ),
{
    broadcast use laws::lemma_tlv_len;

    let v = goose_contents(h, body);
    let b = goose_bytes(h, body) + after;
    laws::lemma_first(app_cons(1), v, after, 0);
    let pdu = laws::element_at(app_cons(1), v, 0);
    let o1 = lemma_head_round_trip(h, body, pdu.value_offset);
    let start = GooseHeaderModel {
        simulation: false,
        conf_rev: 0,
        nds_com: false,
        num_dat_set_entries: 0,
        ..h
    };
    let o2 = lemma_flags_round_trip(h, body, start, o1);
    laws::lemma_only(ctx_cons(11), body, o2);
    let c = CursorModel { bytes: tlv(ctx_cons(11), body), offset: o2 };
    assert(c.rest().bytes.len() == 0);
    assert(pdu.total_len() == goose_bytes(h, body).len());
    assert(b.take(goose_bytes(h, body).len() as int) =~= goose_bytes(h, body));
}

/// An owned PDU that was encoded reads back as it was.
pub proof fn lemma_pdu_round_trip(p: GoosePduModel, limits: Limits)
    requires
        first_fault(values_fault(p.all_data), goose_fault(p.header)) is None,
        p.header.num_dat_set_entries == count32(p.all_data.len()),
        p.all_data.len() <= limits.max_dataset_members,
        forall|j: int| 0 <= j < p.all_data.len() ==> fits(#[trigger] p.all_data[j], limits, 0),
        goose_bytes(p.header, values_bytes(p.all_data)).len() <= usize::MAX,
    ensures
        goose_of(goose_bytes(p.header, values_bytes(p.all_data))) matches Ok(m) && owned_pdu(
            m,
            limits,
        ) == Ok::<GoosePduModel, Error>(p),
{
    broadcast use laws::lemma_tlv_len;

    let body = values_bytes(p.all_data);
    let b = goose_bytes(p.header, body);
    lemma_goose_round_trip(p.header, body, Seq::empty());
    assert(b + Seq::<u8>::empty() =~= b);
    let m = goose_of(b)->Ok_0;
    lemma_values_round_trip(
        p.all_data,
        0,
        limits,
        0,
        m.members.value_offset,
        Seq::empty(),
    );
    assert(Seq::<ValueModel>::empty() + p.all_data.skip(0) =~= p.all_data);
}

/// Encoding is a fixed point: whatever decodes has an encoding, and that decodes to the same
/// header and members. A `security` extension is not written.
pub proof fn lemma_goose_fixed_point(b: Seq<u8>)
    ensures
        goose_of(b) matches Ok(m) ==> {
            let again = goose_bytes(m.header, m.members.value);
            &&& goose_fault(m.header) is None
            &&& again.len() <= usize::MAX ==> (goose_of(again) matches Ok(x) && x.header == m.header
                && x.members.value == m.members.value && x.raw == again)
        },
{
    if let Ok(pdu) = (CursorModel { bytes: b, offset: 0 }).tagged(app_cons(1)) {
        let c = pdu.children();
        laws::lemma_required_decoded(c, ctx(0));
        laws::lemma_required_decoded(c.rest().rest(), ctx(2));
        laws::lemma_opt_visible_decoded(c.rest().rest().rest(), ctx(3));
    }
    if let Ok(m) = goose_of(b) {
        let again = goose_bytes(m.header, m.members.value);
        if again.len() <= usize::MAX {
            lemma_goose_round_trip(m.header, m.members.value, Seq::empty());
            assert(again + Seq::<u8>::empty() =~= again);
        }
    }
}

} // verus!
