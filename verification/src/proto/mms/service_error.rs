//! `ServiceError`, the negative answer to a confirmed request.

use vstd::prelude::*;
use crate::ber::laws;
use crate::ber::{ctx, ctx_cons, sint_octets, tlv, Class, CursorModel, Encoder, Tag, Tlv, TlvModel};
use crate::common::{agrees, Error};

verus! {

/// `service [4]`.
pub const SERVICE: u32 = 4;
/// `service: primitives-out-of-sequence (1)`: the PDU arrived where it cannot be acted on.
pub const PRIMITIVES_OUT_OF_SEQUENCE: i64 = 1;

/// A decoded MMS `ServiceError`.
///
/// `errorClass` is a CHOICE, so the class is its tag number and the code is the integer inside.
#[derive(Clone, Copy, Debug, Default, PartialEq, Eq, Structural)]
pub struct ServiceError {
    /// The `errorClass` choice tag.
    pub class: u32,
    /// The integer that choice carries.
    pub code: i64,
    /// `additionalCode`, when the server sent one.
    pub additional: Option<i64>,
}

impl View for ServiceError {
    type V = ServiceError;

    open spec fn view(&self) -> ServiceError {
        *self
    }
}

/// The error the fields a cursor still holds add to `acc`. Unknown fields are skipped.
pub open spec fn error_fields(c: CursorModel, acc: ServiceError) -> Result<ServiceError, Error>
    decreases c.bytes.len(),
    via error_fields_shrink
{
    if c.bytes.len() == 0 {
        Ok(acc)
    } else {
        match c.first() {
            Err(e) => Err(e),
            Ok(f) => if f.tag.class == Class::Context && f.tag.number == 0 {
                match f.children().first() {
                    Err(e) => Err(e),
                    Ok(inner) => error_fields(
                        c.rest(),
                        ServiceError {
                            class: inner.tag.number,
                            code: match inner.integer() {
                                Ok(v) => v,
                                Err(_) => 0,
                            },
                            ..acc
                        },
                    ),
                }
            } else if f.tag.class == Class::Context && f.tag.number == 1 {
                match f.integer() {
                    Err(e) => Err(e),
                    Ok(v) => error_fields(
                        c.rest(),
                        ServiceError { additional: Some(v), ..acc },
                    ),
                }
            } else {
                error_fields(c.rest(), acc)
            },
        }
    }
}

#[via_fn]
proof fn error_fields_shrink(c: CursorModel, acc: ServiceError) {
    laws::lemma_progress(c);
}

/// The error an element holds.
pub open spec fn service_error_of(t: TlvModel) -> Result<ServiceError, Error> {
    error_fields(t.children(), ServiceError { class: 0, code: 0, additional: None })
}

/// The contents of a `ServiceError` of one class and code.
pub open spec fn service_error_contents(class: u32, code: i64) -> Seq<u8> {
    tlv(ctx_cons(0), tlv(ctx(class), sint_octets(code as int)))
}

impl ServiceError {
    /// The encoded `ServiceError` element for one class and code, under `tag`, which belongs to
    /// the PDU that carries it.
    pub fn encode(tag: Tag, class: u32, code: i64) -> (r: Result<Vec<u8>, Error>)
        ensures
            r matches Ok(b) && b@ == tlv(tag, service_error_contents(class, code)),
    {
        let mut inner = Encoder::new();
        inner.integer(Tag::context(class), code);
        assert(inner@ =~= tlv(ctx(class), sint_octets(code as int)));
        let mut body = Encoder::new();
        body.constructed(Tag::context_constructed(0), &inner);
        assert(body@ =~= service_error_contents(class, code));
        let mut e = Encoder::new();
        e.constructed(tag, &body);
        assert(e@ =~= tlv(tag, body@));
        Ok(e.into_vec())
    }

    /// Decode a `ServiceError` that a PDU keeps encoded.
    pub fn parse(t: &Tlv<'_>) -> (r: Result<ServiceError, Error>)
        ensures
            agrees(r, service_error_of(t@)),
    {
        let mut out = ServiceError { class: 0, code: 0, additional: None };
        let mut c = t.children();
        while !c.is_empty()
            invariant
                service_error_of(t@) == error_fields(c@, out),
            decreases c@.bytes.len(),
        {
            proof {
                laws::lemma_progress(c@);
            }
            let f = c.next_required()?;
            if f.tag.class == Class::Context && f.tag.number == 0 {
                let inner = f.children().next_required()?;
                out.class = inner.tag.number;
                out.code = match inner.integer_i64() {
                    Ok(v) => v,
                    Err(_) => 0,
                };
            } else if f.tag.class == Class::Context && f.tag.number == 1 {
                out.additional = Some(f.integer_i64()?);
            }
        }
        Ok(out)
    }
}

/// An encoded error reads back as its class and code.
pub proof fn lemma_service_error_round_trip(tag: Tag, class: u32, code: i64, offset: usize)
    ensures
        service_error_of(laws::element_at(tag, service_error_contents(class, code), offset))
            == Ok::<ServiceError, Error>(ServiceError { class, code, additional: None }),
{
    broadcast use laws::lemma_tlv_len;

    let c = laws::element_at(tag, service_error_contents(class, code), offset).children();
    let v = sint_octets(code as int);
    laws::lemma_integer_field(ctx(class), code, 0);
    laws::lemma_small(ctx(class), v);
    laws::lemma_only(ctx_cons(0), tlv(ctx(class), v), c.offset);
    let at = laws::element_at(ctx_cons(0), tlv(ctx(class), v), c.offset).value_offset;
    laws::lemma_only(ctx(class), v, at);
    laws::lemma_integer_field(ctx(class), code, at);
    reveal_with_fuel(error_fields, 2);
}

} // verus!
