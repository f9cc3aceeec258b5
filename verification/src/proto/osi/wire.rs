//! The octets of the layers below MMS, field by field.

use vstd::prelude::*;
use crate::ber::{base128, sint_octets, tlv};
use crate::ber::list::{list_bytes, Element};
use crate::ber::wire::{element, group_wire};
use crate::common::{decimal, Error};
use crate::proto::mms::writable::{bits_in_order, lemma_list_writable};
use crate::proto::osi::acse::{
    apdu_bytes, apdu_fault, associate_contents, ApduModel, AssociateModel, UserInformationModel,
};
use crate::proto::osi::cotp::{
    self, clamped, connect_body, connect_fault, pow2, reassembled, tpdu_bytes, tpdu_fault, tpdu_of,
    TpduModel,
};
use crate::proto::osi::oid::{
    acse_syntax, arcs_of, ber_syntax, dotted_from, first_arcs, lemma_arcs_round_trip,
    mms_context_name, mms_syntax, oid_octets, password_mechanism,
};
use crate::proto::osi::presentation::{
    context_from, parameters_contents, ppdu_bytes, ppdu_fault, single_of, ContextDefinition,
    ContextDefinitionModel, ContextResult, ContextResultModel, CpModel, Pdv, PdvModel,
    PdvValuesModel, PpduModel,
};
use crate::proto::osi::session::{self, spdu_bytes, spdu_fault, spdu_of, SpduModel};
use crate::proto::osi::tpkt::{packet, packet_len_of, take_tpdu};

verus! {

/// An element, where there are contents.
pub open spec fn opt_element(lead: u8, v: Option<Seq<u8>>) -> Seq<u8> {
    match v {
        Some(v) => element(lead, v),
        None => Seq::empty(),
    }
}

/// A bit string, where there is one.
pub open spec fn opt_bit_string(lead: u8, v: Option<(u8, Seq<u8>)>) -> Seq<u8> {
    match v {
        Some((unused, bits)) => element(lead, seq![unused] + bits),
        None => Seq::empty(),
    }
}

// ---- TPKT ------------------------------------------------------------------------------

/// A packet is a version 3, a zero, and the length of the whole in two octets, then the payload.
pub proof fn lemma_packet_layout(payload: Seq<u8>)
    requires
        payload.len() + 4 <= 65535,
    ensures
        packet(payload) == seq![
            3u8,
            0u8,
            ((payload.len() + 4) / 256) as u8,
            ((payload.len() + 4) % 256) as u8,
        ] + payload,
{
}

/// What stands at the front of a stream: nothing yet below four octets, an error where the version
/// or the length is wrong, nothing yet where the packet is not all there, and else its payload.
pub proof fn lemma_stream_read(b: Seq<u8>)
    ensures
        b.len() < 4 ==> take_tpdu(b) == (Ok::<Option<Seq<u8>>, Error>(None), b),
        b.len() >= 4 && b[0] != 3 ==> take_tpdu(b).0 is Err && take_tpdu(b).1 == b,
        b.len() >= 4 && b[0] == 3 ==> {
            let n = b[2] * 256 + b[3];
            &&& n < 4 ==> take_tpdu(b).0 is Err && take_tpdu(b).1 == b
            &&& n >= 4 && b.len() < n ==> take_tpdu(b) == (Ok::<Option<Seq<u8>>, Error>(None), b)
            &&& n >= 4 && b.len() >= n ==> take_tpdu(b) == (
                Ok::<Option<Seq<u8>>, Error>(Some(b.subrange(4, n))),
                b.skip(n),
            )
            &&& n >= 4 ==> packet_len_of(b) == Ok::<Option<usize>, Error>(Some(n as usize))
        },
{
}

// ---- COTP ------------------------------------------------------------------------------

/// A TPDU starts with the length of its header and its code: E0 a connection request, D0 its
/// confirmation, 80 a disconnection, F0 data. The references are two octets each, first that of the
/// destination; data carries one octet whose top bit marks the last.
pub proof fn lemma_tpdu_layout(
    c: cotp::ConnectModel,
    dst_ref: u16,
    src_ref: u16,
    reason: u8,
    eot: bool,
    payload: Seq<u8>,
)
    ensures
        tpdu_bytes(TpduModel::ConnectionRequest(c)) == seq![
            (connect_body(c).len() + 1) as u8,
            0xE0u8,
        ] + connect_body(c),
        tpdu_bytes(TpduModel::ConnectionConfirm(c)) == seq![
            (connect_body(c).len() + 1) as u8,
            0xD0u8,
        ] + connect_body(c),
        tpdu_bytes(TpduModel::DisconnectRequest { dst_ref, src_ref, reason }) == seq![
            6u8,
            0x80u8,
            (dst_ref / 256) as u8,
            (dst_ref % 256) as u8,
            (src_ref / 256) as u8,
            (src_ref % 256) as u8,
            reason,
        ],
        tpdu_bytes(TpduModel::Data { eot, payload }) == seq![
            2u8,
            0xF0u8,
            if eot {
                0x80u8
            } else {
                0u8
            },
        ] + payload,
{
    assert(tpdu_bytes(TpduModel::DisconnectRequest { dst_ref, src_ref, reason }) =~= seq![
        6u8,
        0x80u8,
        (dst_ref / 256) as u8,
        (dst_ref % 256) as u8,
        (src_ref / 256) as u8,
        (src_ref % 256) as u8,
        reason,
    ]);
}

/// The body of a connection request: the references, the class, and then C0 the size as a power of
/// two, C1 the calling selector and C2 the called one, each with its length.
pub proof fn lemma_connection_layout(c: cotp::ConnectModel)
    ensures
        connect_body(c) == seq![
            (c.dst_ref / 256) as u8,
            (c.dst_ref % 256) as u8,
            (c.src_ref / 256) as u8,
            (c.src_ref % 256) as u8,
            c.class_options,
        ] + ((match c.tpdu_size_exp {
            Some(e) => seq![0xC0u8, 1u8, e],
            None => Seq::empty(),
        }) + ((match c.src_tsel {
            Some(t) => seq![0xC1u8, t.len() as u8] + t,
            None => Seq::empty(),
        }) + (match c.dst_tsel {
            Some(t) => seq![0xC2u8, t.len() as u8] + t,
            None => Seq::empty(),
        }))),
{
    assert(connect_body(c) =~= seq![
        (c.dst_ref / 256) as u8,
        (c.dst_ref % 256) as u8,
        (c.src_ref / 256) as u8,
        (c.src_ref % 256) as u8,
        c.class_options,
    ] + ((match c.tpdu_size_exp {
        Some(e) => seq![0xC0u8, 1u8, e],
        None => Seq::empty(),
    }) + ((match c.src_tsel {
        Some(t) => seq![0xC1u8, t.len() as u8] + t,
        None => Seq::empty(),
    }) + (match c.dst_tsel {
        Some(t) => seq![0xC2u8, t.len() as u8] + t,
        None => Seq::empty(),
    }))));
}

/// Data is read by its header, however long that is: the top bit of its third octet marks the last
/// TPDU, and the payload stands behind the header.
pub proof fn lemma_data_read(b: Seq<u8>)
    requires
        b.len() >= 3,
        2 <= b[0] < b.len(),
        b[1] == 0xF0,
    ensures
        tpdu_of(b) == Ok::<TpduModel, Error>(
            TpduModel::Data { eot: b[2] >= 0x80, payload: b.skip(1 + b[0] as int) },
        ),
{
    reveal(tpdu_of);
}

/// A TPDU has an encoding unless a selector of it, or its whole header, is longer than one octet can
/// count.
pub proof fn lemma_tpdu_writable(c: cotp::ConnectModel, dst_ref: u16, src_ref: u16, reason: u8)
    ensures
        connect_fault(c) is None <==> (c.src_tsel matches Some(t) ==> t.len() <= 255) && (
        c.dst_tsel matches Some(t) ==> t.len() <= 255) && connect_body(c).len() <= 254,
        tpdu_fault(TpduModel::ConnectionRequest(c)) == connect_fault(c),
        tpdu_fault(TpduModel::ConnectionConfirm(c)) == connect_fault(c),
        tpdu_fault(TpduModel::DisconnectRequest { dst_ref, src_ref, reason }) is None,
{
}

/// A TPDU is 128 octets at the least and 8192 at the most, and the powers of two between.
pub proof fn lemma_sizes()
    ensures
        pow2(clamped(0) as nat) == 128,
        pow2(clamped(7) as nat) == 128,
        pow2(clamped(8) as nat) == 256,
        pow2(clamped(9) as nat) == 512,
        pow2(clamped(10) as nat) == 1024,
        pow2(clamped(11) as nat) == 2048,
        pow2(clamped(12) as nat) == 4096,
        pow2(clamped(13) as nat) == 8192,
        forall|e: u8| e >= 13 ==> #[trigger] clamped(e) == 13,
        forall|e: u8| e <= 7 ==> #[trigger] clamped(e) == 7,
        forall|e: u8| 7 <= e <= 13 ==> #[trigger] clamped(e) == e,
{
    reveal_with_fuel(pow2, 14);
}

/// What is put together: a part that is not the last is kept behind those before it, the last one
/// gives them all, and what would be too long is refused and changes nothing.
pub proof fn lemma_parts(parts: Seq<u8>, limit: usize, eot: bool, payload: Seq<u8>)
    ensures
        parts.len() + payload.len() > limit ==> reassembled(parts, limit, eot, payload).0 is Err
            && reassembled(parts, limit, eot, payload).1 == parts,
        parts.len() + payload.len() <= limit && !eot ==> reassembled(parts, limit, eot, payload)
            == (Ok::<Option<Seq<u8>>, Error>(None), parts + payload),
        parts.len() + payload.len() <= limit && eot ==> reassembled(
            parts,
            limit,
            eot,
            payload,
        ).0 == Ok::<Option<Seq<u8>>, Error>(Some(parts + payload)),
{
    if parts.len() == 0 {
        assert(parts + payload =~= payload);
    }
}

// ---- session ---------------------------------------------------------------------------

/// The octets of a session length: itself below 255, else FF and two octets.
pub open spec fn session_length(n: nat) -> Seq<u8> {
    if n < 255 {
        seq![n as u8]
    } else {
        seq![0xFFu8, (n / 256) as u8, (n % 256) as u8]
    }
}

/// A session parameter or SPDU: its code, the length of its contents, and those.
pub open spec fn item(code: u8, v: Seq<u8>) -> Seq<u8> {
    seq![code] + (session_length(v.len()) + v)
}

/// An item, where there are contents.
pub open spec fn opt_item(code: u8, v: Option<Seq<u8>>) -> Seq<u8> {
    match v {
        Some(v) => item(code, v),
        None => Seq::empty(),
    }
}

/// The SPDUs by their code: 13 a connection, 14 its acceptance, 12 its refusal, 9 the end, 10 its
/// answer, 25 an abort, 26 its answer, and data behind two empty ones, 1 and 1. A connection holds the
/// group 5 of the options 19 and the version 22, the requirements 20, the selectors 51 and 52, and the
/// user data 193, or 194 where that is too long for it.
pub proof fn lemma_spdu_layout(c: session::ConnectModel, u: Seq<u8>, reason: u8)
    ensures
        ({
            let body = seq![
                5u8,
                6u8,
                19u8,
                1u8,
                c.protocol_options,
                22u8,
                1u8,
                c.version,
                20u8,
                2u8,
                (c.requirements / 256) as u8,
                (c.requirements % 256) as u8,
            ] + (opt_item(51, c.calling_ssel) + (opt_item(52, c.called_ssel) + (
            if c.user_data.len() == 0 {
                Seq::empty()
            } else if c.user_data.len() <= 512 {
                item(193, c.user_data)
            } else {
                item(194, c.user_data)
            })));
            &&& spdu_bytes(SpduModel::Connect(c)) == item(13, body)
            &&& spdu_bytes(SpduModel::Accept(c)) == item(14, body)
        }),
        spdu_bytes(SpduModel::DataTransfer(u)) == seq![1u8, 0u8, 1u8, 0u8] + u,
        spdu_bytes(SpduModel::AbortAccept) == seq![26u8, 0u8],
        u.len() > 0 ==> {
            &&& spdu_bytes(SpduModel::Finish(u)) == item(9, item(193, u))
            &&& spdu_bytes(SpduModel::Disconnect(u)) == item(10, item(193, u))
            &&& spdu_bytes(SpduModel::Abort(u)) == item(25, item(193, u))
            &&& spdu_bytes(SpduModel::Refuse { reason: Some(reason), user_data: u }) == item(
                12,
                seq![50u8, 1u8, reason] + item(193, u),
            )
        },
        spdu_bytes(SpduModel::Finish(Seq::empty())) == item(9, Seq::empty()),
{
}

/// Data is what stands behind an empty GIVE TOKENS and an empty DATA TRANSFER.
pub proof fn lemma_data_transfer_read(u: Seq<u8>)
    ensures
        spdu_of(seq![1u8, 0u8, 1u8, 0u8] + u) == Ok::<SpduModel, Error>(SpduModel::DataTransfer(u)),
{
    reveal(spdu_of);
    let b = seq![1u8, 0u8, 1u8, 0u8] + u;
    let after = b.skip(2);
    assert(after.skip(2) =~= u);
    assert(after[0] == 1 && after[1] == 0);
}

// ---- presentation ----------------------------------------------------------------------

/// The presentation PDUs: 31 a connection or its acceptance, with the mode 1 and then the parameters
/// under A2; 30 a refusal; 61 data. The parameters are 80 the version, 81 the calling selector, 82 the
/// called one, 83 the responding one, A4 the contexts, A5 their results, 88 the requirements, 8A the
/// reason of the provider, and 61 the user data.
pub proof fn lemma_ppdu_layout(cp: CpModel, p: Seq<PdvModel>)
    ensures
        ppdu_bytes(PpduModel::UserData(p)) == element(0x61, list_bytes::<Pdv<'static>>(p)),
        ppdu_bytes(PpduModel::Reject(cp)) == element(0x30, parameters_contents(cp)),
        ppdu_bytes(PpduModel::Connect(cp)) == element(
            0x31,
            element(0xA0, element(0x80, seq![1u8])) + element(0xA2, parameters_contents(cp)),
        ),
        ppdu_bytes(PpduModel::Accept(cp)) == ppdu_bytes(PpduModel::Connect(cp)),
        parameters_contents(cp) == opt_bit_string(0x80, cp.protocol_version) + (opt_element(
            0x81,
            cp.calling_psel,
        ) + (opt_element(0x82, cp.called_psel) + (opt_element(0x83, cp.responding_psel) + ((
        if cp.contexts.len() > 0 {
            element(0xA4, list_bytes::<ContextDefinition<'static>>(cp.contexts))
        } else {
            Seq::empty()
        }) + ((if cp.results.len() > 0 {
            element(0xA5, list_bytes::<ContextResult<'static>>(cp.results))
        } else {
            Seq::empty()
        }) + (opt_bit_string(0x88, cp.requirements) + ((match cp.provider_reason {
            Some(v) => element(0x8A, sint_octets(v as int)),
            None => Seq::empty(),
        }) + (if cp.user_data.len() > 0 {
            element(0x61, list_bytes::<Pdv<'static>>(cp.user_data))
        } else {
            Seq::empty()
        })))))))),
{
    broadcast use group_wire;

    assert(sint_octets(1) =~= seq![1u8]);
}

/// What stands in those lists. A context is its identifier, its abstract syntax and, in a sequence,
/// its transfer syntax; a result is 80 with the outcome and 81 with the syntax that was selected; data is
/// the identifier of its context, and A0 one encoded value, 81 octets, or 82 bits.
pub proof fn lemma_context_layout(
    c: ContextDefinitionModel,
    r: ContextResultModel,
    id: u16,
    v: Seq<u8>,
    unused: u8,
)
    ensures
        tlv(
            ContextDefinition::<'static>::tag_of(c),
            ContextDefinition::<'static>::contents_of(c),
        ) == element(
            0x30,
            element(0x02, sint_octets(c.id as int)) + (element(0x06, c.abstract_syntax) + element(
                0x30,
                element(0x06, c.transfer_syntax),
            )),
        ),
        tlv(
            ContextResult::<'static>::tag_of(r),
            ContextResult::<'static>::contents_of(r),
        ) == element(
            0x30,
            element(0x80, sint_octets(r.result as int)) + opt_element(0x81, r.transfer_syntax),
        ),
        ({
            let one = |values: PdvValuesModel|
                tlv(
                    Pdv::<'static>::tag_of(PdvModel { context_id: id, values }),
                    Pdv::<'static>::contents_of(PdvModel { context_id: id, values }),
                );
            let label = element(0x02, sint_octets(id as int));
            &&& one(PdvValuesModel::SingleAsn1Type(v)) == element(0x30, label + element(0xA0, v))
            &&& one(PdvValuesModel::OctetAligned(v)) == element(0x30, label + element(0x81, v))
            &&& one(PdvValuesModel::Arbitrary { unused, bytes: v }) == element(
                0x30,
                label + element(0x82, seq![unused] + v),
            )
        }),
        single_of(PdvValuesModel::SingleAsn1Type(v)) == Some(v),
        single_of(PdvValuesModel::OctetAligned(v)) is None,
{
    broadcast use group_wire;

}

/// The context of an abstract syntax is the first that carries it, and there is none where none does.
pub proof fn lemma_context_found(s: Seq<ContextDefinitionModel>, oid: Seq<u8>, i: nat)
    ensures
        match context_from(s, oid, i) {
            Some(id) => exists|k: int|
                #![trigger s[k]]
                i <= k < s.len() && s[k].id == id && s[k].abstract_syntax == oid && forall|j: int|
                    i <= j < k ==> (#[trigger] s[j]).abstract_syntax != oid,
            None => forall|k: int| i <= k < s.len() ==> (#[trigger] s[k]).abstract_syntax != oid,
        },
    decreases s.len() - i,
{
    if i < s.len() {
        lemma_context_found(s, oid, i + 1);
        if s[i as int].abstract_syntax == oid {
            assert(context_from(s, oid, i) == Some(s[i as int].id));
        }
    }
}

// ---- ACSE ------------------------------------------------------------------------------

/// The APDUs: 60 an association, 61 its answer, 62 a release, 63 its answer and 64 an abort, the last
/// three with their reason under 80.
pub proof fn lemma_apdu_layout(a: AssociateModel, v: i64)
    ensures
        apdu_bytes(ApduModel::Associate(a)) == element(0x60, associate_contents(a, true)),
        apdu_bytes(ApduModel::AssociateResponse(a)) == element(0x61, associate_contents(a, false)),
        apdu_bytes(ApduModel::Release(Some(v))) == element(
            0x62,
            element(0x80, sint_octets(v as int)),
        ),
        apdu_bytes(ApduModel::ReleaseResponse(Some(v))) == element(
            0x63,
            element(0x80, sint_octets(v as int)),
        ),
        apdu_bytes(ApduModel::Abort(Some(v))) == element(
            0x64,
            element(0x80, sint_octets(v as int)),
        ),
        apdu_bytes(ApduModel::Release(None)) == element(0x62, Seq::empty()),
        apdu_bytes(ApduModel::ReleaseResponse(None)) == element(0x63, Seq::empty()),
{
    broadcast use group_wire;

}

/// The user information of an association: an EXTERNAL under BE, with the transfer syntax, the
/// context and the PDU under A0.
pub open spec fn information(u: Option<UserInformationModel>) -> Seq<u8> {
    match u {
        Some(u) => element(
            0xBE,
            element(
                0x28,
                opt_element(0x06, u.direct_reference) + ((match u.indirect_reference {
                    Some(v) => element(0x02, sint_octets(v as int)),
                    None => Seq::empty(),
                }) + element(0xA0, u.value)),
            ),
        ),
        None => Seq::empty(),
    }
}

/// The fields of an association: 80 the version, A1 the application context, A2 and A3 the called
/// title and qualifier, A6 and A7 the calling ones, 8A the requirements, 8B the mechanism, AC the
/// password, and BE the user information.
#[verifier::spinoff_prover]
#[verifier::rlimit(60)]
pub proof fn lemma_request_layout(a: AssociateModel)
    ensures
        associate_contents(a, true) == opt_bit_string(0x80, a.protocol_version) + ((
        match a.context_name {
            Some(o) => element(0xA1, element(0x06, o)),
            None => Seq::empty(),
        }) + (opt_element(0xA2, a.called_ap_title) + (opt_element(0xA3, a.called_ae_qualifier) + (
        opt_element(0xA6, a.calling_ap_title) + (opt_element(0xA7, a.calling_ae_qualifier) + (
        opt_bit_string(0x8A, a.sender_requirements) + (opt_element(0x8B, a.mechanism_name) + (
        opt_element(0xAC, a.authentication_value) + information(a.user_information))))))))),
{
    broadcast use group_wire;

}

/// The fields of the answer: A2 the result and A3 its diagnostic, A4 and A5 the responding title and
/// qualifier; the requirements, the mechanism and the password are two numbers lower than in a
/// request.
#[verifier::spinoff_prover]
#[verifier::rlimit(60)]
pub proof fn lemma_answer_layout(a: AssociateModel)
    ensures
        associate_contents(a, false) == opt_bit_string(0x80, a.protocol_version) + ((
        match a.context_name {
            Some(o) => element(0xA1, element(0x06, o)),
            None => Seq::empty(),
        }) + ((match a.result {
            Some(v) => element(0xA2, element(0x02, sint_octets(v as int))),
            None => Seq::empty(),
        }) + (opt_element(0xA3, a.result_diagnostic) + (opt_element(0xA4, a.responding_ap_title) + (
        opt_element(0xA5, a.responding_ae_qualifier) + (opt_element(0xA6, a.calling_ap_title) + (
        opt_element(0xA7, a.calling_ae_qualifier) + (opt_bit_string(0x88, a.sender_requirements) + (
        opt_element(0x89, a.mechanism_name) + (opt_element(0xAA, a.authentication_value)
            + information(a.user_information))))))))))),
{
    broadcast use group_wire;

}

// ---- object identifiers ----------------------------------------------------------------

/// The identifiers this profile names, as their arcs.
pub proof fn lemma_known_identifiers()
    ensures
        arcs_of(acse_syntax()) == seq![2u32, 2u32, 1u32, 0u32, 1u32],
        arcs_of(mms_syntax()) == seq![1u32, 0u32, 9506u32, 2u32, 1u32],
        arcs_of(mms_context_name()) == seq![1u32, 0u32, 9506u32, 2u32, 3u32],
        arcs_of(ber_syntax()) == seq![2u32, 1u32, 1u32],
        arcs_of(password_mechanism()) == seq![2u32, 2u32, 3u32, 1u32],
{
    lemma_identifier(seq![2u32, 2u32, 1u32, 0u32, 1u32], acse_syntax());
    lemma_identifier(seq![1u32, 0u32, 9506u32, 2u32, 1u32], mms_syntax());
    lemma_identifier(seq![1u32, 0u32, 9506u32, 2u32, 3u32], mms_context_name());
    lemma_identifier(seq![2u32, 1u32, 1u32], ber_syntax());
    lemma_identifier(seq![2u32, 2u32, 3u32, 1u32], password_mechanism());
}

/// The octets of up to five arcs of which none takes more than two octets.
proof fn lemma_identifier(arcs: Seq<u32>, octets: Seq<u8>)
    requires
        3 <= arcs.len() <= 5,
        arcs[0] <= 2,
        arcs[1] < 40,
        forall|i: int| 0 <= i < arcs.len() ==> #[trigger] arcs[i] < 16384,
        octets =~= seq![(arcs[0] * 40 + arcs[1]) as u8] + (base128(arcs[2] as nat) + (
        if arcs.len() > 3 {
            base128(arcs[3] as nat)
        } else {
            Seq::empty()
        } + if arcs.len() > 4 {
            base128(arcs[4] as nat)
        } else {
            Seq::empty()
        })),
    ensures
        arcs_of(octets) == arcs,
{
    reveal_with_fuel(crate::proto::osi::oid::arcs_from, 5);
    lemma_arcs_round_trip(arcs);
    assert(oid_octets(arcs) =~= octets);
}

/// The first octets of an identifier hold its first two arcs: forty times the one and the other.
pub proof fn lemma_first_arcs(v: u32)
    ensures
        v < 40 ==> first_arcs(v) == (0u32, v),
        40 <= v < 80 ==> first_arcs(v) == (1u32, (v - 40) as u32),
        v >= 80 ==> first_arcs(v) == (2u32, (v - 80) as u32),
{
}

/// An identifier is shown as its arcs with dots between them.
pub proof fn lemma_dotted(a: u32, b: u32, c: u32)
    ensures
        dotted_from(seq![a], 0) == decimal(a as nat),
        dotted_from(seq![a, b, c], 0) == decimal(a as nat) + "."@ + decimal(b as nat) + "."@
            + decimal(c as nat),
{
    reveal_with_fuel(dotted_from, 4);
    assert(dotted_from(seq![a], 0) =~= decimal(a as nat));
    assert(dotted_from(seq![a, b, c], 0) =~= decimal(a as nat) + "."@ + decimal(b as nat) + "."@
        + decimal(c as nat));
}

// ---- what can be written ---------------------------------------------------------------

/// Whether an optional selector fits a session parameter.
pub open spec fn selector_fits(s: Option<Seq<u8>>) -> bool {
    s is Some ==> (s->Some_0).len() <= 65535
}

/// A CONNECT carries at most 10240 octets of user data, an ACCEPT and what ends a session at most 512,
/// and data any number. No selector, and no SPDU as a whole, is longer than 65535 octets.
pub proof fn lemma_spdu_writable(c: session::ConnectModel, u: Seq<u8>, reason: Option<u8>)
    ensures
        ({
            let fits = selector_fits(c.calling_ssel) && selector_fits(c.called_ssel)
                && session::connect_body(c).len() <= 65535;
            &&& spdu_fault(SpduModel::Connect(c)) is None <==> fits && c.user_data.len() <= 10240
            &&& spdu_fault(SpduModel::Accept(c)) is None <==> fits && c.user_data.len() <= 512
        }),
        spdu_fault(SpduModel::Finish(u)) is None <==> u.len() <= 512,
        spdu_fault(SpduModel::Disconnect(u)) is None <==> u.len() <= 512,
        spdu_fault(SpduModel::Abort(u)) is None <==> u.len() <= 512,
        spdu_fault(SpduModel::Refuse { reason, user_data: u }) is None <==> u.len() <= 512,
        spdu_fault(SpduModel::DataTransfer(u)) is None,
        spdu_fault(SpduModel::AbortAccept) is None,
{
}

/// Whether an optional bit string is in order.
pub open spec fn opt_bits_in_order(v: Option<(u8, Seq<u8>)>) -> bool {
    v is Some ==> bits_in_order((v->Some_0).0, (v->Some_0).1)
}

/// An APDU can be written when the bit strings of an association are in order; any other always can.
pub proof fn lemma_apdu_writable(a: AssociateModel, v: Option<i64>)
    ensures
        apdu_fault(ApduModel::Associate(a)) is None <==> opt_bits_in_order(a.protocol_version)
            && opt_bits_in_order(a.sender_requirements),
        apdu_fault(ApduModel::AssociateResponse(a)) is None <==> opt_bits_in_order(
            a.protocol_version,
        ) && opt_bits_in_order(a.sender_requirements),
        apdu_fault(ApduModel::Release(v)) is None,
        apdu_fault(ApduModel::ReleaseResponse(v)) is None,
        apdu_fault(ApduModel::Abort(v)) is None,
{
}

/// Whether the values of each list are in order where they are bits.
pub open spec fn pdvs_in_order(s: Seq<PdvModel>) -> bool {
    forall|k: int|
        0 <= k < s.len() ==> ((#[trigger] s[k]).values matches PdvValuesModel::Arbitrary {
            unused,
            bytes,
        } ==> bits_in_order(unused, bytes))
}

/// A presentation PDU can be written when its bit strings are in order.
pub proof fn lemma_ppdu_writable(cp: CpModel, p: Seq<PdvModel>)
    ensures
        ppdu_fault(PpduModel::UserData(p)) is None <==> pdvs_in_order(p),
        ({
            let ok = opt_bits_in_order(cp.protocol_version) && opt_bits_in_order(cp.requirements)
                && pdvs_in_order(cp.user_data);
            &&& ppdu_fault(PpduModel::Connect(cp)) is None <==> ok
            &&& ppdu_fault(PpduModel::Accept(cp)) is None <==> ok
            &&& ppdu_fault(PpduModel::Reject(cp)) is None <==> ok
        }),
{
    lemma_list_writable::<Pdv<'static>>(p);
    lemma_list_writable::<Pdv<'static>>(cp.user_data);
}

} // verus!
