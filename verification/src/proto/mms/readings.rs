//! How types, paths, names, times and refusals of MMS are read and shown.

use vstd::prelude::*;
use vstd::string::*;
use crate::ber::{
    be_fixed, be_nat, ctx, ctx_cons, laws, sint_octets, tlv, univ, Class, CursorModel, Tag,
    TlvModel,
};
use crate::common::{
    decimal, entry_octets, entry_time_from, signed_decimal, DecodeReason, EntryTime, Error, Limits,
    SelectorModel,
};
use crate::proto::mms::alternate::{selector_text, steps_text};
use crate::proto::mms::association::machine::is_reject;
use crate::proto::mms::file::{components_fault, directory_cursor, joined_from};
use crate::proto::mms::journal::{time_octets, time_of, TimeOfDay};
use crate::proto::mms::pdu::{invoke_id, pdu_of, peek_of, service_at, MmsModel};
use crate::proto::mms::read_journal::empty_request;
use crate::proto::mms::reject::{reason_text, reject_text, Reject, RejectReason};
use crate::proto::mms::service_error::{
    error_fields, service_error_contents, service_error_of, ServiceError,
};
use crate::proto::mms::typespec::{find_component, names_from, ComponentModel};

verus! {

// ---- types -----------------------------------------------------------------------------

/// The component of a name is the first that has it, and there is none where none has.
pub proof fn lemma_component_found(s: Seq<ComponentModel>, name: Seq<char>, i: nat)
    ensures
        match find_component(s, name, i) {
            Some(t) => exists|k: int|
                #![trigger s[k]]
                i <= k < s.len() && s[k].name == Some(name) && s[k].type_spec == t && forall|j: int|
                    i <= j < k ==> (#[trigger] s[j]).name != Some(name),
            None => forall|k: int| i <= k < s.len() ==> (#[trigger] s[k]).name != Some(name),
        },
    decreases s.len() - i,
{
    if i < s.len() {
        lemma_component_found(s, name, i + 1);
        if s[i as int].name == Some(name) {
            assert(find_component(s, name, i) == Some(s[i as int].type_spec));
        }
    }
}

/// The names of components are those that have one, in the order of the components.
pub proof fn lemma_component_names(s: Seq<ComponentModel>, c: ComponentModel)
    ensures
        names_from(Seq::empty(), 0).len() == 0,
        names_from(s.push(c), 0) == match c.name {
            Some(n) => names_from(s, 0).push(n),
            None => names_from(s, 0),
        },
{
    lemma_names_end(s, c, 0);
}

proof fn lemma_names_end(s: Seq<ComponentModel>, c: ComponentModel, i: nat)
    requires
        i <= s.len(),
    ensures
        names_from(s.push(c), i) == match c.name {
            Some(n) => names_from(s, i).push(n),
            None => names_from(s, i),
        },
    decreases s.len() - i,
{
    let t = s.push(c);
    if i < s.len() {
        lemma_names_end(s, c, i + 1);
        assert(t[i as int] == s[i as int]);
        if let Some(n) = s[i as int].name {
            if let Some(m) = c.name {
                assert(seq![n] + names_from(s, i + 1).push(m) =~= (seq![n] + names_from(
                    s,
                    i + 1,
                )).push(m));
            }
        }
    } else {
        assert(t[i as int] == c);
        assert(names_from(t, i + 1) =~= Seq::<Seq<char>>::empty());
        assert(names_from(s, i) =~= Seq::<Seq<char>>::empty());
        if let Some(n) = c.name {
            assert(names_from(t, i) =~= seq![n]);
            assert(names_from(s, i).push(n) =~= seq![n]);
        }
    }
}

// ---- paths -----------------------------------------------------------------------------

/// A step is shown as a dot and its name, as its index in brackets, as its first index and the one
/// past its last with two dots between, or as a star in brackets.
pub proof fn lemma_step_shown(name: Seq<char>, i: u32, low: u32, count: u32)
    ensures
        selector_text(SelectorModel::Component(name)) == seq!['.'] + name,
        selector_text(SelectorModel::Index(i)) == seq!['('] + decimal(i as nat) + seq![')'],
        selector_text(SelectorModel::IndexRange { low, count }) == seq!['('] + decimal(low as nat)
            + seq!['.', '.'] + decimal(low as nat + count as nat) + seq![')'],
        selector_text(SelectorModel::AllElements) == seq!['(', '*', ')'],
{
    reveal_strlit(".");
    reveal_strlit("(");
    reveal_strlit(")");
    reveal_strlit("..");
    reveal_strlit("(*)");
    assert("."@ =~= seq!['.']);
    assert("("@ =~= seq!['(']);
    assert(")"@ =~= seq![')']);
    assert(".."@ =~= seq!['.', '.']);
    assert("(*)"@ =~= seq!['(', '*', ')']);
}

/// A path is shown step by step.
pub proof fn lemma_path_shown(s: Seq<SelectorModel>, step: SelectorModel)
    ensures
        steps_text(Seq::empty(), 0).len() == 0,
        steps_text(s.push(step), 0) == steps_text(s, 0) + selector_text(step),
{
    lemma_path_end(s, step, 0);
}

proof fn lemma_path_end(s: Seq<SelectorModel>, step: SelectorModel, i: nat)
    requires
        i <= s.len(),
    ensures
        steps_text(s.push(step), i) == steps_text(s, i) + selector_text(step),
    decreases s.len() - i,
{
    let t = s.push(step);
    if i < s.len() {
        lemma_path_end(s, step, i + 1);
        assert(t[i as int] == s[i as int]);
        let here = selector_text(s[i as int]);
        assert(here + (steps_text(s, i + 1) + selector_text(step)) =~= (here + steps_text(
            s,
            i + 1,
        )) + selector_text(step));
    } else {
        assert(t[i as int] == step);
        assert(steps_text(t, i + 1) =~= Seq::<char>::empty());
        assert(steps_text(t, i) =~= selector_text(step));
        assert(steps_text(s, i) + selector_text(step) =~= selector_text(step));
    }
}

// ---- files -----------------------------------------------------------------------------

/// A file name of one part is that part, and each further part stands behind a slash.
pub proof fn lemma_file_name_shown(parts: Seq<Seq<char>>, part: Seq<char>)
    ensures
        joined_from(Seq::empty(), 0).len() == 0,
        joined_from(seq![part], 0) == part,
        parts.len() > 0 ==> joined_from(parts.push(part), 0) == joined_from(parts, 0) + seq!['/']
            + part,
{
    reveal_strlit("/");
    assert("/"@ =~= seq!['/']);
    assert(joined_from(seq![part], 1) =~= Seq::<char>::empty());
    assert(joined_from(seq![part], 0) =~= part);
    if parts.len() > 0 {
        lemma_file_name_end(parts, part, 0);
        assert(joined_from(parts, 0) + ("/"@ + part) =~= joined_from(parts, 0) + seq!['/'] + part);
    }
}

proof fn lemma_file_name_end(parts: Seq<Seq<char>>, part: Seq<char>, i: nat)
    requires
        i <= parts.len(),
        parts.len() > 0,
    ensures
        joined_from(parts.push(part), i) == joined_from(parts, i) + ("/"@ + part),
    decreases parts.len() - i,
{
    let t = parts.push(part);
    if i < parts.len() {
        lemma_file_name_end(parts, part, i + 1);
        assert(t[i as int] == parts[i as int]);
        let next = joined_from(parts, i + 1);
        if i == 0 {
            assert(parts[0] + (next + ("/"@ + part)) =~= (parts[0] + next) + ("/"@ + part));
        } else {
            let here = parts[i as int];
            assert("/"@ + (here + (next + ("/"@ + part))) =~= ("/"@ + (here + next)) + ("/"@
                + part));
        }
    } else {
        assert(t[i as int] == part);
        assert(joined_from(t, i + 1) =~= Seq::<char>::empty());
        assert(joined_from(t, i) =~= "/"@ + part);
        assert(joined_from(parts, i) + ("/"@ + part) =~= "/"@ + part);
    }
}

/// A file name can be written when each of its parts is ASCII.
pub proof fn lemma_file_name_writable(parts: Seq<Seq<char>>, i: nat)
    ensures
        components_fault(parts, i) is None <==> forall|k: int|
            i <= k < parts.len() ==> vstd::utf8::is_ascii_chars(#[trigger] parts[k]),
    decreases parts.len() - i,
{
    if i < parts.len() {
        lemma_file_name_writable(parts, i + 1);
        assert(parts[i as int] == parts[i as int]);
    }
}

/// The entries of a directory stand in a sequence of their own. Where that is left out, they are what
/// the list itself holds: what is in its first element is then no sequence.
pub proof fn lemma_directory_entries(tag: Tag, inner: Seq<u8>, rest: Seq<u8>, offset: usize)
    requires
        tlv(univ(16, true), tlv(univ(16, true), inner) + rest).len() <= u64::MAX,
        tlv(univ(16, true), tlv(ctx_cons(0), inner) + rest).len() <= u64::MAX,
    ensures
        ({
            let entries = tlv(univ(16, true), inner) + rest;
            directory_cursor(
                laws::element_at(tag, tlv(univ(16, true), entries), offset),
            ).bytes == entries
        }),
        ({
            let entries = tlv(univ(16, true), tlv(ctx_cons(0), inner) + rest);
            directory_cursor(laws::element_at(tag, entries, offset)).bytes == entries
        }),
        directory_cursor(laws::element_at(tag, tlv(univ(16, true), Seq::empty()), offset)).bytes
            == Seq::<u8>::empty(),
{
    broadcast use laws::lemma_tlv_len;

    let sequence = univ(16, true);
    let a = tlv(sequence, inner) + rest;
    let list = laws::element_at(tag, tlv(sequence, a), offset);
    laws::lemma_only(sequence, a, list.children().offset);
    let first = laws::element_at(sequence, a, list.children().offset);
    laws::lemma_first(sequence, inner, rest, first.children().offset);
    let b = tlv(ctx_cons(0), inner) + rest;
    let plain = laws::element_at(tag, tlv(sequence, b), offset);
    laws::lemma_only(sequence, b, plain.children().offset);
    let entry = laws::element_at(sequence, b, plain.children().offset);
    laws::lemma_first(ctx_cons(0), inner, rest, entry.children().offset);
    let none = Seq::<u8>::empty();
    let empty = laws::element_at(tag, tlv(sequence, none), offset);
    laws::lemma_only(sequence, none, empty.children().offset);
}

// ---- times -----------------------------------------------------------------------------

/// A time is four octets of milliseconds, without a date, or six with one; of another length there is
/// none.
pub proof fn lemma_journal_time(b: Seq<u8>, t: TimeOfDay)
    ensures
        b.len() == 4 ==> time_of(b) == Ok::<TimeOfDay, Error>(
            TimeOfDay {
                time: EntryTime { millis_of_day: be_nat(b) as u32, days_since_1984: 0 },
                dated: false,
            },
        ),
        b.len() == 6 ==> time_of(b) == Ok::<TimeOfDay, Error>(
            TimeOfDay { time: entry_time_from(b), dated: true },
        ),
        b.len() != 4 && b.len() != 6 ==> time_of(b) is Err,
        t.dated ==> time_octets(t) == entry_octets(t.time),
        !t.dated ==> time_octets(t) == be_fixed(t.time.millis_of_day as nat, 4),
{
}

// ---- refusals --------------------------------------------------------------------------

/// A service error is read by its class, its code and, where it stands behind them, the additional
/// code.
pub proof fn lemma_service_error_read(tag: Tag, class: u32, code: i64, more: i64, offset: usize)
    ensures
        service_error_of(
            laws::element_at(
                tag,
                service_error_contents(class, code) + tlv(ctx(1), sint_octets(more as int)),
                offset,
            ),
        ) == Ok::<ServiceError, Error>(ServiceError { class, code, additional: Some(more) }),
{
    broadcast use laws::lemma_tlv_len;

    let v = sint_octets(code as int);
    let w = sint_octets(more as int);
    let tail = tlv(ctx(1), w);
    let c = laws::element_at(tag, service_error_contents(class, code) + tail, offset).children();
    laws::lemma_integer_field(ctx(class), code, 0);
    laws::lemma_small(ctx(class), v);
    laws::lemma_first(ctx_cons(0), tlv(ctx(class), v), tail, c.offset);
    let at = laws::element_at(ctx_cons(0), tlv(ctx(class), v), c.offset).value_offset;
    laws::lemma_only(ctx(class), v, at);
    laws::lemma_integer_field(ctx(class), code, at);
    let next = c.rest();
    laws::lemma_integer_field(ctx(1), more, next.offset);
    laws::lemma_small(ctx(1), w);
    laws::lemma_only(ctx(1), w, next.offset);
    reveal_with_fuel(error_fields, 3);
}

/// Octets are a rejection when their first element is number 4 of the context class, and no other.
pub proof fn lemma_rejection(v: Seq<u8>, r: Seq<u8>, n: u32)
    requires
        v.len() <= u64::MAX,
        n != 4,
    ensures
        is_reject(tlv(ctx_cons(4), v) + r),
        !is_reject(tlv(ctx_cons(n), v) + r),
        !is_reject(Seq::empty()),
{
    laws::lemma_first(ctx_cons(4), v, r, 0);
    laws::lemma_first(ctx_cons(n), v, r, 0);
}

/// Whether a reason is shown as this kind and this word.
pub open spec fn shown(r: RejectReason, kind: &'static str, word: &'static str) -> bool {
    reason_text(r) == kind@ + seq![':', ' '] + word@
}

/// What a rejected request, response or error is shown as, by its code.
pub proof fn lemma_confirmed_reasons()
    ensures
        shown(RejectReason::ConfirmedRequest(0), "confirmed-request", "other"),
        shown(RejectReason::ConfirmedRequest(1), "confirmed-request", "unrecognized-service"),
        shown(RejectReason::ConfirmedRequest(2), "confirmed-request", "unrecognized-modifier"),
        shown(RejectReason::ConfirmedRequest(3), "confirmed-request", "invalid-invokeID"),
        shown(RejectReason::ConfirmedRequest(4), "confirmed-request", "invalid-argument"),
        shown(RejectReason::ConfirmedRequest(5), "confirmed-request", "invalid-modifier"),
        shown(
            RejectReason::ConfirmedRequest(6),
            "confirmed-request",
            "max-serv-outstanding-exceeded",
        ),
        shown(RejectReason::ConfirmedRequest(8), "confirmed-request", "max-recursion-exceeded"),
        shown(RejectReason::ConfirmedRequest(9), "confirmed-request", "value-out-of-range"),
        shown(RejectReason::ConfirmedResponse(0), "confirmed-response", "other"),
        shown(RejectReason::ConfirmedResponse(1), "confirmed-response", "unrecognized-service"),
        shown(RejectReason::ConfirmedResponse(2), "confirmed-response", "invalid-invokeID"),
        shown(RejectReason::ConfirmedResponse(3), "confirmed-response", "invalid-result"),
        shown(RejectReason::ConfirmedResponse(5), "confirmed-response", "max-recursion-exceeded"),
        shown(RejectReason::ConfirmedResponse(6), "confirmed-response", "value-out-of-range"),
        shown(RejectReason::ConfirmedError(0), "confirmed-error", "other"),
        shown(RejectReason::ConfirmedError(1), "confirmed-error", "unrecognized-service"),
        shown(RejectReason::ConfirmedError(2), "confirmed-error", "invalid-invokeID"),
        shown(RejectReason::ConfirmedError(3), "confirmed-error", "invalid-serviceError"),
        shown(RejectReason::ConfirmedError(4), "confirmed-error", "value-out-of-range"),
{
    lemma_words();
}

/// What any other rejected PDU is shown as, by its code.
pub proof fn lemma_other_reasons()
    ensures
        shown(RejectReason::Unconfirmed(0), "unconfirmed", "other"),
        shown(RejectReason::Unconfirmed(1), "unconfirmed", "unrecognized-service"),
        shown(RejectReason::Unconfirmed(2), "unconfirmed", "invalid-argument"),
        shown(RejectReason::Unconfirmed(3), "unconfirmed", "max-recursion-exceeded"),
        shown(RejectReason::Unconfirmed(4), "unconfirmed", "value-out-of-range"),
        shown(RejectReason::PduError(0), "pdu-error", "unknown-pdu-type"),
        shown(RejectReason::PduError(1), "pdu-error", "invalid-pdu"),
        shown(RejectReason::PduError(2), "pdu-error", "illegal-acse-mapping"),
        shown(RejectReason::CancelRequest(0), "cancel", "other"),
        shown(RejectReason::CancelRequest(1), "cancel", "invalid-invokeID"),
        shown(RejectReason::CancelResponse(0), "cancel", "other"),
        shown(RejectReason::CancelResponse(1), "cancel", "invalid-invokeID"),
        shown(RejectReason::CancelError(0), "cancel-error", "other"),
        shown(RejectReason::CancelError(1), "cancel-error", "invalid-invokeID"),
        shown(RejectReason::CancelError(2), "cancel-error", "invalid-serviceError"),
        shown(RejectReason::CancelError(3), "cancel-error", "value-out-of-range"),
        shown(RejectReason::ConcludeRequest(0), "conclude-request", "other"),
        shown(RejectReason::ConcludeRequest(1), "conclude-request", "invalid-argument"),
        shown(RejectReason::ConcludeResponse(0), "conclude-response", "other"),
        shown(RejectReason::ConcludeResponse(1), "conclude-response", "invalid-result"),
        shown(RejectReason::ConcludeError(0), "conclude-error", "other"),
        shown(RejectReason::ConcludeError(1), "conclude-error", "invalid-serviceError"),
        shown(RejectReason::ConcludeError(2), "conclude-error", "value-out-of-range"),
{
    lemma_words();
}

/// A code without a name is shown as a number, and a reason of an unknown kind as both numbers.
pub proof fn lemma_unnamed_reasons(code: i64, tag: u32)
    requires
        code > 9,
    ensures
        reason_text(RejectReason::ConfirmedRequest(code)) == "confirmed-request"@ + seq![':', ' ']
            + signed_decimal(code as int),
        reason_text(RejectReason::PduError(code)) == "pdu-error"@ + seq![':', ' '] + signed_decimal(
            code as int,
        ),
        reason_text(RejectReason::Unconfirmed(code)) == "unconfirmed"@ + seq![':', ' ']
            + signed_decimal(code as int),
        reason_text(RejectReason::Other { tag, code }) == "reject("@ + decimal(tag as nat)
            + seq![')', ':', ' '] + signed_decimal(code as int),
{
    lemma_words();
    reveal_strlit("");
    reveal_strlit("): ");
    assert("): "@ =~= seq![')', ':', ' ']);
}

/// A reject is shown with the request it names, if it names one, before its reason.
pub proof fn lemma_reject_shown(id: i64, reason: RejectReason)
    ensures
        reject_text(Reject { original_invoke_id: Some(id), reason }) == "reject of invoke "@
            + signed_decimal(id as int) + seq![':', ' '] + reason_text(reason),
        reject_text(Reject { original_invoke_id: None, reason }) == "reject"@ + seq![':', ' ']
            + reason_text(reason),
{
    lemma_words();
    reveal_strlit("reject: ");
    reveal_strlit("reject");
    assert("reject: "@ =~= "reject"@ + seq![':', ' ']);
}

proof fn lemma_words()
    ensures
        ": "@ == seq![':', ' '],
        "other"@.len() > 0,
        "unrecognized-service"@.len() > 0,
        "unrecognized-modifier"@.len() > 0,
        "invalid-invokeID"@.len() > 0,
        "invalid-argument"@.len() > 0,
        "invalid-modifier"@.len() > 0,
        "max-serv-outstanding-exceeded"@.len() > 0,
        "max-recursion-exceeded"@.len() > 0,
        "value-out-of-range"@.len() > 0,
        "invalid-result"@.len() > 0,
        "invalid-serviceError"@.len() > 0,
        "unknown-pdu-type"@.len() > 0,
        "invalid-pdu"@.len() > 0,
        "illegal-acse-mapping"@.len() > 0,
{
    reveal_strlit(": ");
    reveal_strlit("other");
    reveal_strlit("unrecognized-service");
    reveal_strlit("unrecognized-modifier");
    reveal_strlit("invalid-invokeID");
    reveal_strlit("invalid-argument");
    reveal_strlit("invalid-modifier");
    reveal_strlit("max-serv-outstanding-exceeded");
    reveal_strlit("max-recursion-exceeded");
    reveal_strlit("value-out-of-range");
    reveal_strlit("invalid-result");
    reveal_strlit("invalid-serviceError");
    reveal_strlit("unknown-pdu-type");
    reveal_strlit("invalid-pdu");
    reveal_strlit("illegal-acse-mapping");
    assert(": "@ =~= seq![':', ' ']);
}

// ---- PDUs ------------------------------------------------------------------------------

/// What a PDU is follows from its number in the context class. One of another class is refused where
/// it stands, and a number without a meaning here is kept as it is.
pub proof fn lemma_pdu_kinds(top: TlvModel, limits: Limits)
    ensures
        ({
            let n = top.tag.number;
            let r = pdu_of(top, limits);
            &&& top.tag.class != Class::Context ==> r == Err::<MmsModel, Error>(
                Error::Decode { reason: DecodeReason::UnexpectedTag, offset: top.offset },
            )
            &&& top.tag.class == Class::Context ==> {
                &&& n == 0 ==> (r matches Ok(m) ==> m is ConfirmedRequest)
                &&& n == 1 ==> (r matches Ok(m) ==> m is ConfirmedResponse)
                &&& n == 2 ==> (r matches Ok(m) ==> m is ConfirmedError)
                &&& n == 3 ==> (r matches Ok(m) ==> m is Unconfirmed)
                &&& n == 4 ==> (r matches Ok(m) ==> m is Reject)
                &&& n == 5 ==> (r matches Ok(m) ==> m is CancelRequest)
                &&& n == 6 ==> (r matches Ok(m) ==> m is CancelResponse)
                &&& n == 7 ==> (r matches Ok(m) ==> m is CancelError)
                &&& n == 8 ==> (r matches Ok(m) ==> m is InitiateRequest)
                &&& n == 9 ==> (r matches Ok(m) ==> m is InitiateResponse)
                &&& n == 10 ==> r == Ok::<MmsModel, Error>(MmsModel::InitiateError(top))
                &&& n == 11 ==> r == Ok::<MmsModel, Error>(MmsModel::ConcludeRequest)
                &&& n == 12 ==> r == Ok::<MmsModel, Error>(MmsModel::ConcludeResponse)
                &&& n == 13 ==> r == Ok::<MmsModel, Error>(MmsModel::ConcludeError(top))
                &&& n > 13 ==> r == Ok::<MmsModel, Error>(MmsModel::Other(top))
            }
        }),
{
    reveal(pdu_of);
}

/// The modifiers in front of a service, which are a sequence, are passed over.
pub proof fn lemma_modifiers_passed_over(
    modifiers: Seq<u8>,
    tag: Tag,
    v: Seq<u8>,
    rest: Seq<u8>,
    offset: usize,
)
    requires
        modifiers.len() <= u64::MAX,
        v.len() <= u64::MAX,
        tag != univ(16, true),
    ensures
        ({
            let plain = CursorModel { bytes: tlv(tag, v) + rest, offset };
            let more = CursorModel {
                bytes: tlv(univ(16, true), modifiers) + (tlv(tag, v) + rest),
                offset,
            };
            &&& service_at(plain) matches Ok(s) && s.tag == tag && s.value == v
            &&& service_at(more) matches Ok(s) && s.tag == tag && s.value == v
        }),
{
    broadcast use laws::lemma_tlv_len;

    laws::lemma_first(tag, v, rest, offset);
    laws::lemma_first(univ(16, true), modifiers, tlv(tag, v) + rest, offset);
    let next = laws::cursor_after(univ(16, true), modifiers, tlv(tag, v) + rest, offset);
    laws::lemma_first(tag, v, rest, next.offset);
}

/// The call that octets name can be told without decoding them: it is the number in front of a
/// request, a response, an error or a cancellation. Any other PDU names none in that place.
pub proof fn lemma_call_told(n: u32, primitive: bool, id: u32, rest: Seq<u8>)
    requires
        rest.len() + 16 <= u64::MAX,
    ensures
        ({
            let number = if primitive {
                ctx(0)
            } else {
                univ(2, false)
            };
            let r = peek_of(tlv(ctx_cons(n), tlv(number, sint_octets(id as int)) + rest));
            &&& n <= 2 || n == 5 ==> r == Some(id as i64)
            &&& n != 0 && n != 1 && n != 2 && n != 5 ==> r is None
        }),
        peek_of(Seq::empty()) is None,
{
    broadcast use laws::lemma_tlv_len;

    let number = if primitive {
        ctx(0)
    } else {
        univ(2, false)
    };
    let w = sint_octets(id as int);
    laws::lemma_integer_field(number, id as i64, 0);
    laws::lemma_small(number, w);
    let body = tlv(number, w) + rest;
    laws::lemma_only(ctx_cons(n), body, 0);
    let top = laws::element_at(ctx_cons(n), body, 0);
    laws::lemma_first(number, w, rest, top.children().offset);
    laws::lemma_integer_field(number, id as i64, top.children().offset);
}

/// The call that a PDU carries or names, where it does.
pub proof fn lemma_call_of(m: MmsModel)
    ensures
        match m {
            MmsModel::ConfirmedRequest { invoke_id: id, .. } => invoke_id(m) == Some(id),
            MmsModel::ConfirmedResponse { invoke_id: id, .. } => invoke_id(m) == Some(id),
            MmsModel::ConfirmedError { invoke_id: id, .. } => invoke_id(m) == Some(id),
            MmsModel::CancelRequest(id) => invoke_id(m) == Some(id),
            MmsModel::CancelResponse(id) => invoke_id(m) == Some(id),
            MmsModel::CancelError { invoke_id: id, .. } => invoke_id(m) == Some(id),
            MmsModel::Reject(r) => invoke_id(m) == r.original_invoke_id,
            _ => invoke_id(m) is None,
        },
{
}

/// A request for a log asks for the whole of it, and of every variable, where nothing else is said.
pub proof fn lemma_whole_log()
    ensures
        empty_request().name is None,
        empty_request().start is None,
        empty_request().stop is None,
        empty_request().variables.len() == 0,
        empty_request().after is None,
{
}

} // verus!
