//! The negotiated parameters of an association.

use vstd::prelude::*;
use crate::ber::laws;
use crate::ber::{
    bit_octets, bits_fault, ctx, ctx_cons, first_fault, opt_integer_bytes, sint_octets, tlv, wrote,
    Encoder, Tag, Tlv, TlvModel,
};
use crate::common::{agrees, Error};

verus! {

/// `Initiate-RequestPDU` and `Initiate-ResponsePDU`.
#[derive(Clone, Copy, Debug, PartialEq, Eq)]
pub struct Initiate<'a> {
    /// The largest MMS PDU this side accepts.
    pub local_detail: Option<i64>,
    /// Outstanding calls this side may issue.
    pub max_serv_outstanding_calling: i64,
    /// Outstanding calls this side accepts.
    pub max_serv_outstanding_called: i64,
    /// How deep a nested `Data` may be.
    pub data_structure_nesting_level: Option<i64>,
    /// Version number, from the init detail.
    pub version: i64,
    /// `parameterCBB`, as its bit-string contents.
    pub parameter_cbb: (u8, &'a [u8]),
    /// `servicesSupported`, as its bit-string contents.
    pub services_supported: (u8, &'a [u8]),
}

/// What an [`Initiate`] stands for.
pub struct InitiateModel {
    pub local_detail: Option<i64>,
    pub max_serv_outstanding_calling: i64,
    pub max_serv_outstanding_called: i64,
    pub data_structure_nesting_level: Option<i64>,
    pub version: i64,
    pub parameter_cbb: (u8, Seq<u8>),
    pub services_supported: (u8, Seq<u8>),
}

impl<'a> View for Initiate<'a> {
    type V = InitiateModel;

    open spec fn view(&self) -> InitiateModel {
        InitiateModel {
            local_detail: self.local_detail,
            max_serv_outstanding_calling: self.max_serv_outstanding_calling,
            max_serv_outstanding_called: self.max_serv_outstanding_called,
            data_structure_nesting_level: self.data_structure_nesting_level,
            version: self.version,
            parameter_cbb: self.parameter_cbb@,
            services_supported: self.services_supported@,
        }
    }
}

/// The parameters an element holds.
pub open spec fn initiate_of(t: TlvModel) -> Result<InitiateModel, Error> {
    let c0 = t.children();
    let c1 = c0.skip_optional(ctx(0));
    let c2 = c1.rest();
    let c3 = c2.rest();
    let c4 = c3.skip_optional(ctx(3));
    match c0.opt_integer(ctx(0)) {
        Err(e) => Err(e),
        Ok(local_detail) => match c1.integer(ctx(1)) {
            Err(e) => Err(e),
            Ok(calling) => match c2.integer(ctx(2)) {
                Err(e) => Err(e),
                Ok(called) => match c3.opt_integer(ctx(3)) {
                    Err(e) => Err(e),
                    Ok(nesting) => match c4.tagged(ctx_cons(4)) {
                        Err(e) => Err(e),
                        Ok(detail) => {
                            let d0 = detail.children();
                            let d1 = d0.rest();
                            match d0.integer(ctx(0)) {
                                Err(e) => Err(e),
                                Ok(version) => match d1.bits(ctx(1)) {
                                    Err(e) => Err(e),
                                    Ok(parameter_cbb) => match d1.rest().bits(ctx(2)) {
                                        Err(e) => Err(e),
                                        Ok(services_supported) => Ok(
                                            InitiateModel {
                                                local_detail,
                                                max_serv_outstanding_calling: calling,
                                                max_serv_outstanding_called: called,
                                                data_structure_nesting_level: nesting,
                                                version,
                                                parameter_cbb,
                                                services_supported,
                                            },
                                        ),
                                    },
                                },
                            }
                        },
                    },
                },
            },
        },
    }
}

/// The contents of the init detail.
pub open spec fn detail_contents(m: InitiateModel) -> Seq<u8> {
    tlv(ctx(0), sint_octets(m.version as int)) + (tlv(
        ctx(1),
        bit_octets(m.parameter_cbb.0, m.parameter_cbb.1),
    ) + tlv(ctx(2), bit_octets(m.services_supported.0, m.services_supported.1)))
}

/// The contents octets of the parameters.
pub open spec fn initiate_contents(m: InitiateModel) -> Seq<u8> {
    opt_integer_bytes(ctx(0), m.local_detail) + (tlv(
        ctx(1),
        sint_octets(m.max_serv_outstanding_calling as int),
    ) + (tlv(ctx(2), sint_octets(m.max_serv_outstanding_called as int)) + (opt_integer_bytes(
        ctx(3),
        m.data_structure_nesting_level,
    ) + tlv(ctx_cons(4), detail_contents(m)))))
}

/// Why the parameters have no encoding.
pub open spec fn initiate_fault(m: InitiateModel) -> Option<Error> {
    first_fault(
        bits_fault(m.parameter_cbb.0, m.parameter_cbb.1),
        bits_fault(m.services_supported.0, m.services_supported.1),
    )
}

impl<'a> Initiate<'a> {
    /// The proposal one end makes: `max_pdu` octets, `outstanding` calls in each direction and
    /// nesting five.
    pub fn request(
        max_pdu: i64,
        outstanding: i64,
        parameter_cbb: (u8, &'a [u8]),
        services_supported: (u8, &'a [u8]),
    ) -> (r: Initiate<'a>)
        ensures
            r@ == (InitiateModel {
                local_detail: Some(max_pdu),
                max_serv_outstanding_calling: outstanding,
                max_serv_outstanding_called: outstanding,
                data_structure_nesting_level: Some(5),
                version: 1,
                parameter_cbb: parameter_cbb@,
                services_supported: services_supported@,
            }),
    {
        Initiate {
            local_detail: Some(max_pdu),
            max_serv_outstanding_calling: outstanding,
            max_serv_outstanding_called: outstanding,
            data_structure_nesting_level: Some(5),
            version: 1,
            parameter_cbb,
            services_supported,
        }
    }

    /// Decode the contents of an initiate PDU.
    pub fn parse(t: &Tlv<'a>) -> (r: Result<Initiate<'a>, Error>)
        ensures
            agrees(r, initiate_of(t@)),
    {
        let mut c = t.children();
        let local_detail = c.next_opt_integer(Tag::context(0))?;
        let calling: i64 = c.next_tag(Tag::context(1))?.integer_i64()?;
        let called: i64 = c.next_tag(Tag::context(2))?.integer_i64()?;
        let nesting = c.next_opt_integer(Tag::context(3))?;
        let detail = c.next_tag(Tag::context_constructed(4))?;
        let mut d = detail.children();
        let version: i64 = d.next_tag(Tag::context(0))?.integer_i64()?;
        let parameter_cbb = d.next_tag(Tag::context(1))?.bit_string()?;
        let services_supported = d.next_tag(Tag::context(2))?.bit_string()?;
        Ok(
            Initiate {
                local_detail,
                max_serv_outstanding_calling: calling,
                max_serv_outstanding_called: called,
                data_structure_nesting_level: nesting,
                version,
                parameter_cbb,
                services_supported,
            },
        )
    }

    /// Encode the parameters as a PDU under `tag`.
    pub fn write(&self, tag: Tag, e: &mut Encoder) -> (r: Result<(), Error>)
        ensures
            wrote(
                r,
                old(e)@,
                final(e)@,
                initiate_fault(self@),
                tlv(tag, initiate_contents(self@)),
            ),
    {
        let mut detail = Encoder::new();
        detail.integer(Tag::context(0), self.version);
        detail.bit_string(Tag::context(1), self.parameter_cbb.0, self.parameter_cbb.1)?;
        detail.bit_string(Tag::context(2), self.services_supported.0, self.services_supported.1)?;
        assert(detail@ =~= detail_contents(self@));
        let mut body = Encoder::new();
        body.opt_integer(Tag::context(0), self.local_detail);
        body.integer(Tag::context(1), self.max_serv_outstanding_calling);
        body.integer(Tag::context(2), self.max_serv_outstanding_called);
        body.opt_integer(Tag::context(3), self.data_structure_nesting_level);
        body.constructed(Tag::context_constructed(4), &detail);
        assert(body@ =~= initiate_contents(self@));
        e.constructed(tag, &body);
        Ok(())
    }
}

/// Parameters that have an encoding read back as they were.
pub proof fn lemma_initiate_round_trip(m: InitiateModel, tag: Tag, offset: usize)
    requires
        initiate_fault(m) is None,
        initiate_contents(m).len() <= u64::MAX,
    ensures
        initiate_of(laws::element_at(tag, initiate_contents(m), offset)) == Ok::<
            InitiateModel,
            Error,
        >(m),
{
    broadcast use laws::lemma_tlv_len;

    let calling = sint_octets(m.max_serv_outstanding_calling as int);
    let called = sint_octets(m.max_serv_outstanding_called as int);
    let r4 = tlv(ctx_cons(4), detail_contents(m));
    let r3 = opt_integer_bytes(ctx(3), m.data_structure_nesting_level) + r4;
    let r2 = tlv(ctx(2), called) + r3;
    let r1 = tlv(ctx(1), calling) + r2;
    let c0 = laws::element_at(tag, initiate_contents(m), offset).children();
    laws::lemma_integer_field(ctx(1), m.max_serv_outstanding_calling, 0);
    laws::lemma_lacks(ctx(1), calling, r2, ctx(0));
    laws::lemma_opt_integer(ctx(0), m.local_detail, r1, c0.offset);
    let c1 = c0.skip_optional(ctx(0));
    laws::lemma_integer(ctx(1), m.max_serv_outstanding_calling, r2, c1.offset);
    let c2 = c1.rest();
    laws::lemma_integer(ctx(2), m.max_serv_outstanding_called, r3, c2.offset);
    let c3 = c2.rest();
    assert(r4 + Seq::empty() =~= r4);
    laws::lemma_lacks(ctx_cons(4), detail_contents(m), Seq::empty(), ctx(3));
    laws::lemma_opt_integer(ctx(3), m.data_structure_nesting_level, r4, c3.offset);
    let c4 = c3.skip_optional(ctx(3));
    laws::lemma_only(ctx_cons(4), detail_contents(m), c4.offset);
    let d0 = laws::element_at(ctx_cons(4), detail_contents(m), c4.offset).children();
    let services = tlv(ctx(2), bit_octets(m.services_supported.0, m.services_supported.1));
    let cbb = tlv(ctx(1), bit_octets(m.parameter_cbb.0, m.parameter_cbb.1)) + services;
    laws::lemma_integer(ctx(0), m.version, cbb, d0.offset);
    let d1 = d0.rest();
    laws::lemma_bits(ctx(1), m.parameter_cbb.0, m.parameter_cbb.1, services, d1.offset);
    assert(services + Seq::empty() =~= services);
    laws::lemma_bits(
        ctx(2),
        m.services_supported.0,
        m.services_supported.1,
        Seq::empty(),
        d1.rest().offset,
    );
}

/// Parameters that were decoded have an encoding.
pub proof fn lemma_initiate_decoded(t: TlvModel)
    ensures
        initiate_of(t) matches Ok(m) ==> initiate_fault(m) is None,
{
}

} // verus!
