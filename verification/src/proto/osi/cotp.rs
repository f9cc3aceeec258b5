//! COTP class 0 (ISO 8073): connect, accept, data.
//!
//! What class 0 provides over TCP is a TSDU: a data unit that may be longer than one TPDU and
//! is reassembled from a run of DT TPDUs that ends with the end-of-transmission bit. A TPDU is
//! length-prefixed: its first octet is the length of everything after it up to the user data.

use vstd::prelude::*;
use vstd::slice::*;
use crate::ber::{push_all, truncated, two_octets, wrote_or_left};
use crate::common::{agrees, sat_add, DecodeReason, Error};

verus! {

/// Connection request.
pub const CR: u8 = 0xE0;
/// Connection confirm.
pub const CC: u8 = 0xD0;
/// Disconnect request.
pub const DR: u8 = 0x80;
/// Disconnect confirm.
pub const DC: u8 = 0xC0;
/// Data.
pub const DT: u8 = 0xF0;
/// Error.
pub const ER: u8 = 0x70;

/// The end-of-transmission bit of a DT TPDU.
pub const EOT: u8 = 0x80;

/// Parameter code: TPDU size, as a power of two.
pub const PARAM_TPDU_SIZE: u8 = 0xC0;
/// Parameter code: calling transport selector.
pub const PARAM_SRC_TSAP: u8 = 0xC1;
/// Parameter code: called transport selector.
pub const PARAM_DST_TSAP: u8 = 0xC2;

/// The smallest TPDU size exponent (128 octets).
pub const TPDU_SIZE_MIN_EXP: u8 = 7;
/// The largest TPDU size exponent (8192 octets).
pub const TPDU_SIZE_MAX_EXP: u8 = 13;

/// An exponent within the range that may be negotiated.
pub open spec fn clamped(exp: u8) -> u8 {
    if exp < 7 {
        7
    } else if exp > 13 {
        13
    } else {
        exp
    }
}

/// Two to the power `e`.
pub open spec fn pow2(e: nat) -> nat
    decreases e,
{
    if e == 0 {
        1
    } else {
        2 * pow2((e - 1) as nat)
    }
}

/// Octets in a TPDU of the size `exp` describes: two to its power, within the range that may
/// be negotiated.
pub fn tpdu_size(exp: u8) -> (r: usize)
    ensures
        r == pow2(clamped(exp) as nat),
        128 <= r <= 8192,
{
    reveal_with_fuel(pow2, 14);
    match exp {
        0..=7 => 128,
        8 => 256,
        9 => 512,
        10 => 1024,
        11 => 2048,
        12 => 4096,
        _ => 8192,
    }
}

/// A transport selector: an opaque identifier.
#[derive(Debug, PartialEq, Eq, Hash)]
pub struct Tsel(pub Vec<u8>);

impl View for Tsel {
    type V = Seq<u8>;

    open spec fn view(&self) -> Seq<u8> {
        self.0@
    }
}

impl Clone for Tsel {
    fn clone(&self) -> (r: Tsel)
        ensures
            r@ == self@,
    {
        Tsel(slice_to_vec(&self.0))
    }
}

impl Default for Tsel {
    /// The empty selector.
    fn default() -> (r: Tsel)
        ensures
            r@ == Seq::<u8>::empty(),
    {
        Tsel(Vec::new())
    }
}

impl Tsel {
    /// A selector from its octets.
    pub fn new(bytes: Vec<u8>) -> (r: Tsel)
        ensures
            r@ == bytes@,
    {
        Tsel(bytes)
    }

    /// True when the selector carries no octets, which is how a peer says "any".
    pub fn is_empty(&self) -> (r: bool)
        ensures
            r == (self@.len() == 0),
    {
        self.0.len() == 0
    }
}

/// The parameters of a CR or CC TPDU.
#[derive(Debug, PartialEq, Eq)]
pub struct Connect {
    /// Destination reference (zero in a CR).
    pub dst_ref: u16,
    /// Source reference.
    pub src_ref: u16,
    /// Class and options octet; class 0 with no options is 0.
    pub class_options: u8,
    /// Negotiated TPDU size as its exponent, if the parameter is present.
    pub tpdu_size_exp: Option<u8>,
    /// Calling transport selector.
    pub src_tsel: Option<Tsel>,
    /// Called transport selector.
    pub dst_tsel: Option<Tsel>,
}

/// What a [`Connect`] stands for.
pub struct ConnectModel {
    pub dst_ref: u16,
    pub src_ref: u16,
    pub class_options: u8,
    pub tpdu_size_exp: Option<u8>,
    pub src_tsel: Option<Seq<u8>>,
    pub dst_tsel: Option<Seq<u8>>,
}

/// An optional selector.
pub open spec fn opt_tsel(t: Option<Tsel>) -> Option<Seq<u8>> {
    match t {
        Some(t) => Some(t@),
        None => None,
    }
}

impl View for Connect {
    type V = ConnectModel;

    open spec fn view(&self) -> ConnectModel {
        ConnectModel {
            dst_ref: self.dst_ref,
            src_ref: self.src_ref,
            class_options: self.class_options,
            tpdu_size_exp: self.tpdu_size_exp,
            src_tsel: opt_tsel(self.src_tsel),
            dst_tsel: opt_tsel(self.dst_tsel),
        }
    }
}

/// A copy of an optional selector.
pub fn duplicate_tsel(t: &Option<Tsel>) -> (r: Option<Tsel>)
    ensures
        opt_tsel(r) == opt_tsel(*t),
{
    match t {
        Some(t) => Some(t.clone()),
        None => None,
    }
}

/// References and class zero, and no parameters.
pub open spec fn no_connect() -> ConnectModel {
    ConnectModel {
        dst_ref: 0,
        src_ref: 0,
        class_options: 0,
        tpdu_size_exp: None,
        src_tsel: None,
        dst_tsel: None,
    }
}

impl Default for Connect {
    fn default() -> (r: Connect)
        ensures
            r@ == no_connect(),
    {
        Connect {
            dst_ref: 0,
            src_ref: 0,
            class_options: 0,
            tpdu_size_exp: None,
            src_tsel: None,
            dst_tsel: None,
        }
    }
}

impl Clone for Connect {
    fn clone(&self) -> (r: Connect)
        ensures
            r@ == self@,
    {
        Connect {
            dst_ref: self.dst_ref,
            src_ref: self.src_ref,
            class_options: self.class_options,
            tpdu_size_exp: self.tpdu_size_exp,
            src_tsel: duplicate_tsel(&self.src_tsel),
            dst_tsel: duplicate_tsel(&self.dst_tsel),
        }
    }
}

/// The parameters, each a code, a length and a value, added to `acc`. Unknown ones are
/// skipped.
pub open spec fn params_of(rest: Seq<u8>, acc: ConnectModel) -> Result<ConnectModel, Error>
    decreases rest.len(),
{
    if rest.len() == 0 {
        Ok(acc)
    } else if rest.len() < 2 || rest.len() < 2 + rest[1] {
        truncated(0)
    } else {
        let len = rest[1] as int;
        let value = rest.subrange(2, 2 + len);
        let next = if rest[0] == PARAM_TPDU_SIZE {
            ConnectModel {
                tpdu_size_exp: if len > 0 {
                    Some(value[0])
                } else {
                    None
                },
                ..acc
            }
        } else if rest[0] == PARAM_SRC_TSAP {
            ConnectModel { src_tsel: Some(value), ..acc }
        } else if rest[0] == PARAM_DST_TSAP {
            ConnectModel { dst_tsel: Some(value), ..acc }
        } else {
            acc
        };
        params_of(rest.skip(2 + len), next)
    }
}

/// The body of a CR or CC: two references, the class, and the parameters.
pub open spec fn connect_of(body: Seq<u8>) -> Result<ConnectModel, Error> {
    if body.len() < 5 {
        truncated(0)
    } else {
        params_of(
            body.skip(5),
            ConnectModel {
                dst_ref: (body[0] * 256 + body[1]) as u16,
                src_ref: (body[2] * 256 + body[3]) as u16,
                class_options: body[4],
                tpdu_size_exp: None,
                src_tsel: None,
                dst_tsel: None,
            },
        )
    }
}

/// The TPDU size parameter, where there is one.
pub open spec fn size_param(exp: Option<u8>) -> Seq<u8> {
    match exp {
        Some(e) => seq![PARAM_TPDU_SIZE, 1, e],
        None => Seq::empty(),
    }
}

/// A selector parameter, where there is one.
pub open spec fn tsel_param(code: u8, t: Option<Seq<u8>>) -> Seq<u8> {
    match t {
        Some(t) => seq![code, t.len() as u8] + t,
        None => Seq::empty(),
    }
}

/// The body of a CR or CC.
pub open spec fn connect_body(m: ConnectModel) -> Seq<u8> {
    two_octets(m.dst_ref) + (two_octets(m.src_ref) + (seq![m.class_options] + (size_param(
        m.tpdu_size_exp,
    ) + (tsel_param(PARAM_SRC_TSAP, m.src_tsel) + tsel_param(PARAM_DST_TSAP, m.dst_tsel)))))
}

/// A CR or CC.
pub open spec fn connect_bytes(code: u8, m: ConnectModel) -> Seq<u8> {
    seq![(connect_body(m).len() + 1) as u8, code] + connect_body(m)
}

/// What stands before the selectors of a CR or CC whose length is still to be filled in.
pub open spec fn connect_front(code: u8, m: ConnectModel) -> Seq<u8> {
    seq![0u8, code] + (two_octets(m.dst_ref) + (two_octets(m.src_ref) + (seq![m.class_options]
        + size_param(m.tpdu_size_exp))))
}

/// What has been written of a CR or CC when it turns out to have no encoding: everything before a
/// selector that is too long, or all of it, without its length.
pub open spec fn connect_left(code: u8, m: ConnectModel) -> Seq<u8> {
    if m.src_tsel matches Some(t) && t.len() > 255 {
        connect_front(code, m)
    } else if m.dst_tsel matches Some(t) && t.len() > 255 {
        connect_front(code, m) + tsel_param(PARAM_SRC_TSAP, m.src_tsel)
    } else {
        seq![0u8, code] + connect_body(m)
    }
}

/// Why a CR or CC has no encoding.
pub open spec fn connect_fault(m: ConnectModel) -> Option<Error> {
    if (m.src_tsel matches Some(t) && t.len() > 255) || (m.dst_tsel matches Some(t) && t.len()
        > 255) {
        Some(Error::Encode("transport selector too long"))
    } else if connect_body(m).len() + 1 > 255 {
        Some(Error::Encode("COTP header too long"))
    } else {
        None
    }
}

fn push_u16(out: &mut Vec<u8>, n: u16)
    ensures
        final(out)@ == old(out)@ + two_octets(n),
{
    out.push((n / 256) as u8);
    out.push((n % 256) as u8);
    assert(out@ =~= old(out)@ + two_octets(n));
}

fn push_tsel(out: &mut Vec<u8>, code: u8, t: &Option<Tsel>) -> (r: Result<(), Error>)
    ensures
        match opt_tsel(*t) {
            Some(s) => if s.len() > 255 {
                r == Err::<(), Error>(Error::Encode("transport selector too long"))
                    && final(out)@ == old(out)@
            } else {
                r is Ok && final(out)@ == old(out)@ + tsel_param(code, opt_tsel(*t))
            },
            None => r is Ok && final(out)@ == old(out)@ + tsel_param(code, opt_tsel(*t)),
        },
{
    match t {
        Some(t) => {
            if t.0.len() > 255 {
                return Err(Error::Encode("transport selector too long"));
            }
            out.push(code);
            out.push(t.0.len() as u8);
            push_all(out, &t.0);
            assert(out@ =~= old(out)@ + tsel_param(code, Some(t@)));
            Ok(())
        },
        None => {
            assert(out@ =~= old(out)@ + tsel_param(code, opt_tsel(*t)));
            Ok(())
        },
    }
}

impl Connect {
    /// A class-0 connection request with the given selectors and size.
    pub fn request(src_ref: u16, src_tsel: Tsel, dst_tsel: Tsel, tpdu_size_exp: u8) -> (r: Connect)
        ensures
            r@ == (ConnectModel {
                dst_ref: 0,
                src_ref,
                class_options: 0,
                tpdu_size_exp: Some(clamped(tpdu_size_exp)),
                src_tsel: Some(src_tsel@),
                dst_tsel: Some(dst_tsel@),
            }),
    {
        let exp: u8 = if tpdu_size_exp < TPDU_SIZE_MIN_EXP {
            TPDU_SIZE_MIN_EXP
        } else if tpdu_size_exp > TPDU_SIZE_MAX_EXP {
            TPDU_SIZE_MAX_EXP
        } else {
            tpdu_size_exp
        };
        Connect {
            dst_ref: 0,
            src_ref,
            class_options: 0,
            tpdu_size_exp: Some(exp),
            src_tsel: Some(src_tsel),
            dst_tsel: Some(dst_tsel),
        }
    }

    /// Octets of user data one DT TPDU may carry: the size less the three-octet header.
    pub fn max_data(&self) -> (r: usize)
        ensures
            r == pow2(
                clamped(
                    match self@.tpdu_size_exp {
                        Some(e) => e,
                        None => 7,
                    },
                ) as nat,
            ) - 3,
    {
        let exp: u8 = match self.tpdu_size_exp {
            Some(e) => e,
            None => TPDU_SIZE_MIN_EXP,
        };
        tpdu_size(exp) - 3
    }

    fn parse(body: &[u8]) -> (r: Result<Connect, Error>)
        ensures
            agrees(r, connect_of(body@)),
    {
        if body.len() < 5 {
            return Err(Error::decode(DecodeReason::Truncated, 0));
        }
        let mut out = Connect {
            dst_ref: body[0] as u16 * 256 + body[1] as u16,
            src_ref: body[2] as u16 * 256 + body[3] as u16,
            class_options: body[4],
            tpdu_size_exp: None,
            src_tsel: None,
            dst_tsel: None,
        };
        let mut rest = slice_subrange(body, 5, body.len());
        assert(rest@ =~= body@.skip(5));
        while rest.len() > 0
            invariant
                connect_of(body@) == params_of(rest@, out@),
            decreases rest.len(),
        {
            if rest.len() < 2 {
                return Err(Error::decode(DecodeReason::Truncated, 0));
            }
            let code: u8 = rest[0];
            let len: usize = rest[1] as usize;
            if rest.len() - 2 < len {
                return Err(Error::decode(DecodeReason::Truncated, 0));
            }
            let value = slice_subrange(rest, 2, 2 + len);
            if code == PARAM_TPDU_SIZE {
                out.tpdu_size_exp = if len > 0 {
                    Some(value[0])
                } else {
                    None
                };
            } else if code == PARAM_SRC_TSAP {
                out.src_tsel = Some(Tsel(slice_to_vec(value)));
            } else if code == PARAM_DST_TSAP {
                out.dst_tsel = Some(Tsel(slice_to_vec(value)));
            }
            assert(rest@.subrange(2 + len, rest@.len() as int) =~= rest@.skip(2 + len));
            rest = slice_subrange(rest, 2 + len, rest.len());
        }
        Ok(out)
    }

    fn write(&self, code: u8, out: &mut Vec<u8>) -> (r: Result<(), Error>)
        ensures
            wrote_or_left(
                r,
                old(out)@,
                final(out)@,
                connect_fault(self@),
                connect_bytes(code, self@),
                connect_left(code, self@),
            ),
    {
        let start: usize = out.len();
        out.push(0);
        out.push(code);
        push_u16(out, self.dst_ref);
        push_u16(out, self.src_ref);
        out.push(self.class_options);
        if let Some(exp) = self.tpdu_size_exp {
            out.push(PARAM_TPDU_SIZE);
            out.push(1);
            out.push(exp);
        }
        assert(out@ =~= old(out)@ + connect_front(code, self@));
        push_tsel(out, PARAM_SRC_TSAP, &self.src_tsel)?;
        assert(out@ =~= old(out)@ + (connect_front(code, self@) + tsel_param(
            PARAM_SRC_TSAP,
            self@.src_tsel,
        )));
        push_tsel(out, PARAM_DST_TSAP, &self.dst_tsel)?;
        assert(out@ =~= old(out)@ + (seq![0u8, code] + connect_body(self@)));
        let len: usize = out.len() - start - 1;
        if len > 255 {
            return Err(Error::Encode("COTP header too long"));
        }
        out.set(start, len as u8);
        assert(out@ =~= old(out)@ + connect_bytes(code, self@));
        Ok(())
    }
}

/// A decoded COTP TPDU.
#[derive(Debug, PartialEq, Eq)]
pub enum Tpdu<'a> {
    /// Connection request.
    ConnectionRequest(Connect),
    /// Connection confirm.
    ConnectionConfirm(Connect),
    /// Disconnect request, with the reason octet.
    DisconnectRequest {
        /// Destination reference.
        dst_ref: u16,
        /// Source reference.
        src_ref: u16,
        /// Reason.
        reason: u8,
    },
    /// Data, with the end-of-transmission flag and the user data.
    Data {
        /// True when this TPDU ends the TSDU.
        eot: bool,
        /// The user data.
        payload: &'a [u8],
    },
    /// Anything else, as its code and body.
    Other {
        /// The TPDU code.
        code: u8,
        /// Everything after the code, up to the end of the TPDU.
        body: &'a [u8],
    },
}

/// What a [`Tpdu`] stands for.
pub enum TpduModel {
    ConnectionRequest(ConnectModel),
    ConnectionConfirm(ConnectModel),
    DisconnectRequest { dst_ref: u16, src_ref: u16, reason: u8 },
    Data { eot: bool, payload: Seq<u8> },
    Other { code: u8, body: Seq<u8> },
}

impl<'a> View for Tpdu<'a> {
    type V = TpduModel;

    open spec fn view(&self) -> TpduModel {
        match *self {
            Tpdu::ConnectionRequest(c) => TpduModel::ConnectionRequest(c@),
            Tpdu::ConnectionConfirm(c) => TpduModel::ConnectionConfirm(c@),
            Tpdu::DisconnectRequest { dst_ref, src_ref, reason } => TpduModel::DisconnectRequest {
                dst_ref,
                src_ref,
                reason,
            },
            Tpdu::Data { eot, payload } => TpduModel::Data { eot, payload: payload@ },
            Tpdu::Other { code, body } => TpduModel::Other { code, body: body@ },
        }
    }
}

impl<'a> Clone for Tpdu<'a> {
    fn clone(&self) -> (r: Tpdu<'a>)
        ensures
            r@ == self@,
    {
        match self {
            Tpdu::ConnectionRequest(c) => Tpdu::ConnectionRequest(c.clone()),
            Tpdu::ConnectionConfirm(c) => Tpdu::ConnectionConfirm(c.clone()),
            Tpdu::DisconnectRequest { dst_ref, src_ref, reason } => Tpdu::DisconnectRequest {
                dst_ref: *dst_ref,
                src_ref: *src_ref,
                reason: *reason,
            },
            Tpdu::Data { eot, payload } => Tpdu::Data { eot: *eot, payload },
            Tpdu::Other { code, body } => Tpdu::Other { code: *code, body },
        }
    }
}

/// The TPDU that octets are.
#[verifier::opaque]
pub open spec fn tpdu_of(b: Seq<u8>) -> Result<TpduModel, Error> {
    if b.len() == 0 {
        truncated(0)
    } else if b.len() < 1 + b[0] || b[0] == 0 {
        truncated(1)
    } else {
        let li = b[0] as int;
        let code = b[1];
        let body = b.subrange(2, 1 + li);
        let payload = b.skip(1 + li);
        if code == CR {
            match connect_of(body) {
                Ok(c) => Ok(TpduModel::ConnectionRequest(c)),
                Err(e) => Err(e),
            }
        } else if code == CC {
            match connect_of(body) {
                Ok(c) => Ok(TpduModel::ConnectionConfirm(c)),
                Err(e) => Err(e),
            }
        } else if code == DR {
            if body.len() < 5 {
                truncated(1)
            } else {
                Ok(
                    TpduModel::DisconnectRequest {
                        dst_ref: (body[0] * 256 + body[1]) as u16,
                        src_ref: (body[2] * 256 + body[3]) as u16,
                        reason: body[4],
                    },
                )
            }
        } else if code == DT {
            if body.len() < 1 {
                truncated(1)
            } else {
                Ok(TpduModel::Data { eot: body[0] >= EOT, payload })
            }
        } else {
            Ok(TpduModel::Other { code, body: b.skip(2) })
        }
    }
}

/// The octets of a TPDU.
pub open spec fn tpdu_bytes(m: TpduModel) -> Seq<u8> {
    match m {
        TpduModel::ConnectionRequest(c) => connect_bytes(CR, c),
        TpduModel::ConnectionConfirm(c) => connect_bytes(CC, c),
        TpduModel::DisconnectRequest { dst_ref, src_ref, reason } => seq![6u8, DR] + (two_octets(
            dst_ref,
        ) + (two_octets(src_ref) + seq![reason])),
        TpduModel::Data { eot, payload } => seq![
            2u8,
            DT,
            if eot {
                EOT
            } else {
                0
            },
        ] + payload,
        TpduModel::Other { code, body } => seq![(body.len() + 1) as u8, code] + body,
    }
}

/// Why a TPDU has no encoding.
pub open spec fn tpdu_fault(m: TpduModel) -> Option<Error> {
    match m {
        TpduModel::ConnectionRequest(c) => connect_fault(c),
        TpduModel::ConnectionConfirm(c) => connect_fault(c),
        TpduModel::Other { body, .. } => if body.len() + 1 > 255 {
            Some(Error::Encode("COTP header too long"))
        } else {
            None
        },
        _ => None,
    }
}

/// What has been written of a TPDU when it turns out to have no encoding.
pub open spec fn tpdu_left(m: TpduModel) -> Seq<u8> {
    match m {
        TpduModel::ConnectionRequest(c) => connect_left(CR, c),
        TpduModel::ConnectionConfirm(c) => connect_left(CC, c),
        _ => Seq::empty(),
    }
}

impl<'a> Tpdu<'a> {
    /// Decode one TPDU, which is the payload of a TPKT packet.
    pub fn parse(tpdu: &'a [u8]) -> (r: Result<Tpdu<'a>, Error>)
        ensures
            agrees(r, tpdu_of(tpdu@)),
    {
        reveal(tpdu_of);
        if tpdu.len() == 0 {
            return Err(Error::decode(DecodeReason::Truncated, 0));
        }
        let li: usize = tpdu[0] as usize;
        if tpdu.len() - 1 < li || li == 0 {
            return Err(Error::decode(DecodeReason::Truncated, 1));
        }
        let code: u8 = tpdu[1];
        let body = slice_subrange(tpdu, 2, 1 + li);
        if code == CR {
            return Ok(Tpdu::ConnectionRequest(Connect::parse(body)?));
        }
        if code == CC {
            return Ok(Tpdu::ConnectionConfirm(Connect::parse(body)?));
        }
        if code == DR {
            if body.len() < 5 {
                return Err(Error::decode(DecodeReason::Truncated, 1));
            }
            return Ok(
                Tpdu::DisconnectRequest {
                    dst_ref: body[0] as u16 * 256 + body[1] as u16,
                    src_ref: body[2] as u16 * 256 + body[3] as u16,
                    reason: body[4],
                },
            );
        }
        if code == DT {
            if body.len() < 1 {
                return Err(Error::decode(DecodeReason::Truncated, 1));
            }
            let payload = slice_subrange(tpdu, 1 + li, tpdu.len());
            assert(payload@ =~= tpdu@.skip(1 + li));
            return Ok(Tpdu::Data { eot: body[0] >= EOT, payload });
        }
        let body = slice_subrange(tpdu, 2, tpdu.len());
        assert(body@ =~= tpdu@.skip(2));
        Ok(Tpdu::Other { code, body })
    }

    /// Encode into `out`. A CR or CC that has no encoding leaves what was written of it there.
    pub fn write(&self, out: &mut Vec<u8>) -> (r: Result<(), Error>)
        ensures
            wrote_or_left(
                r,
                old(out)@,
                final(out)@,
                tpdu_fault(self@),
                tpdu_bytes(self@),
                tpdu_left(self@),
            ),
    {
        match self {
            Tpdu::ConnectionRequest(c) => c.write(CR, out),
            Tpdu::ConnectionConfirm(c) => c.write(CC, out),
            Tpdu::DisconnectRequest { dst_ref, src_ref, reason } => {
                out.push(6);
                out.push(DR);
                push_u16(out, *dst_ref);
                push_u16(out, *src_ref);
                out.push(*reason);
                assert(out@ =~= old(out)@ + tpdu_bytes(self@));
                Ok(())
            },
            Tpdu::Data { eot, payload } => {
                out.push(2);
                out.push(DT);
                out.push(
                    if *eot {
                        EOT
                    } else {
                        0
                    },
                );
                push_all(out, payload);
                assert(out@ =~= old(out)@ + tpdu_bytes(self@));
                Ok(())
            },
            Tpdu::Other { code, body } => {
                if body.len() > 254 {
                    assert(out@ =~= old(out)@ + tpdu_left(self@));
                    return Err(Error::Encode("COTP header too long"));
                }
                out.push((body.len() + 1) as u8);
                out.push(*code);
                push_all(out, body);
                assert(out@ =~= old(out)@ + tpdu_bytes(self@));
                Ok(())
            },
        }
    }
}

proof fn lemma_params_tail(src: Option<Seq<u8>>, dst: Option<Seq<u8>>, acc: ConnectModel)
    requires
        src matches Some(t) ==> t.len() <= 255,
        dst matches Some(t) ==> t.len() <= 255,
        acc.src_tsel is None,
        acc.dst_tsel is None,
    ensures
        params_of(tsel_param(PARAM_SRC_TSAP, src) + tsel_param(PARAM_DST_TSAP, dst), acc) == Ok::<
            ConnectModel,
            Error,
        >(ConnectModel { src_tsel: src, dst_tsel: dst, ..acc }),
{
    let d = tsel_param(PARAM_DST_TSAP, dst);
    let after = ConnectModel { src_tsel: src, ..acc };
    assert(params_of(d, after) == Ok::<ConnectModel, Error>(
        ConnectModel { dst_tsel: dst, ..after },
    )) by {
        reveal_with_fuel(params_of, 2);
        if let Some(t) = dst {
            assert(d.subrange(2, 2 + d[1]) =~= t);
            assert(d.skip(2 + d[1] as int) =~= Seq::<u8>::empty());
        }
    }
    let s = tsel_param(PARAM_SRC_TSAP, src) + d;
    match src {
        Some(t) => {
            assert(s.subrange(2, 2 + s[1]) =~= t);
            assert(s.skip(2 + s[1] as int) =~= d);
        },
        None => {
            assert(s =~= d);
        },
    }
}

proof fn lemma_connect_round_trip(m: ConnectModel)
    requires
        connect_fault(m) is None,
    ensures
        connect_of(connect_body(m)) == Ok::<ConnectModel, Error>(m),
{
    let b = connect_body(m);
    let tail = tsel_param(PARAM_SRC_TSAP, m.src_tsel) + tsel_param(PARAM_DST_TSAP, m.dst_tsel);
    let params = size_param(m.tpdu_size_exp) + tail;
    assert(b.skip(5) =~= params);
    let start = ConnectModel {
        dst_ref: m.dst_ref,
        src_ref: m.src_ref,
        class_options: m.class_options,
        tpdu_size_exp: None,
        src_tsel: None,
        dst_tsel: None,
    };
    let sized = ConnectModel { tpdu_size_exp: m.tpdu_size_exp, ..start };
    lemma_params_tail(m.src_tsel, m.dst_tsel, sized);
    match m.tpdu_size_exp {
        Some(e) => {
            assert(params[1] == 1);
            assert(params.subrange(2, 3)[0] == e);
            assert(params.skip(3) =~= tail);
        },
        None => {
            assert(params =~= tail);
        },
    }
    assert(b[0] * 256 + b[1] == m.dst_ref);
    assert(b[2] * 256 + b[3] == m.src_ref);
}

/// Whether a kept TPDU is one that has no variant of its own.
pub open spec fn tpdu_fits(m: TpduModel) -> bool {
    m matches TpduModel::Other { code, .. } ==> code != CR && code != CC && code != DR && code != DT
}

/// A TPDU that has an encoding reads back as it was.
pub proof fn lemma_tpdu_round_trip(m: TpduModel)
    requires
        tpdu_fault(m) is None,
        tpdu_fits(m),
    ensures
        tpdu_of(tpdu_bytes(m)) == Ok::<TpduModel, Error>(m),
{
    reveal(tpdu_of);
    let b = tpdu_bytes(m);
    match m {
        TpduModel::ConnectionRequest(c) => {
            lemma_connect_round_trip(c);
            assert(b.subrange(2, 1 + b[0]) =~= connect_body(c));
        },
        TpduModel::ConnectionConfirm(c) => {
            lemma_connect_round_trip(c);
            assert(b.subrange(2, 1 + b[0]) =~= connect_body(c));
        },
        TpduModel::DisconnectRequest { dst_ref, src_ref, reason } => {
            let body = b.subrange(2, 7);
            assert(body[0] * 256 + body[1] == dst_ref);
            assert(body[2] * 256 + body[3] == src_ref);
        },
        TpduModel::Data { eot, payload } => {
            assert(b.skip(3) =~= payload);
        },
        TpduModel::Other { code, body } => {
            assert(b.skip(2) =~= body);
        },
    }
}

/// Reassembles DT TPDUs into TSDUs, up to a limit.
#[derive(Debug)]
pub struct Reassembler {
    /// The octets of a TSDU that is still incomplete.
    parts: Vec<u8>,
    /// The longest TSDU that is assembled.
    limit: usize,
}

/// What a [`Reassembler`] stands for.
pub struct ReassemblerModel {
    /// The octets of a TSDU that is still incomplete.
    pub parts: Seq<u8>,
    /// The longest TSDU that is assembled.
    pub limit: usize,
}

impl View for Reassembler {
    type V = ReassemblerModel;

    closed spec fn view(&self) -> ReassemblerModel {
        ReassemblerModel { parts: self.parts@, limit: self.limit }
    }
}

/// What feeding one DT TPDU gives, and what is held after it.
pub open spec fn reassembled(parts: Seq<u8>, limit: usize, eot: bool, payload: Seq<u8>) -> (
    Result<Option<Seq<u8>>, Error>,
    Seq<u8>,
) {
    if parts.len() + payload.len() > limit {
        (
            Err(
                Error::LimitExceeded {
                    limit: "max_tsdu",
                    value: sat_add(parts.len() as usize, payload.len()),
                },
            ),
            parts,
        )
    } else if parts.len() == 0 && eot {
        (Ok(Some(payload)), parts)
    } else if eot {
        (Ok(Some(parts + payload)), parts + payload)
    } else {
        (Ok(None), parts + payload)
    }
}

impl Reassembler {
    /// A reassembler that refuses a TSDU longer than `limit` octets.
    pub fn new(limit: usize) -> (r: Reassembler)
        ensures
            r@ == (ReassemblerModel { parts: Seq::empty(), limit }),
    {
        Reassembler { parts: Vec::new(), limit }
    }

    /// Octets held for a TSDU that is still incomplete.
    pub fn buffered(&self) -> (r: usize)
        ensures
            r == self@.parts.len(),
    {
        self.parts.len()
    }

    /// Drop a partial TSDU.
    pub fn reset(&mut self)
        ensures
            final(self)@ == (ReassemblerModel { parts: Seq::empty(), ..old(self)@ }),
    {
        self.parts.clear();
    }

    /// Feed one DT TPDU. Returns the whole TSDU once the end-of-transmission bit arrives.
    ///
    /// A TSDU that fits one TPDU is the caller's own slice; only a segmented one is assembled.
    pub fn push<'a>(&'a mut self, eot: bool, payload: &'a [u8]) -> (r: Result<
        Option<&'a [u8]>,
        Error,
    >)
        ensures
            ({
                let want = reassembled(old(self)@.parts, old(self)@.limit, eot, payload@);
                &&& match r {
                    Ok(Some(t)) => want.0 == Ok::<Option<Seq<u8>>, Error>(Some(t@)),
                    Ok(None) => want.0 == Ok::<Option<Seq<u8>>, Error>(None),
                    Err(e) => want.0 == Err::<Option<Seq<u8>>, Error>(e),
                }
                &&& final(self)@ == (ReassemblerModel { parts: want.1, ..old(self)@ })
            }),
    {
        let n: usize = self.parts.len();
        if payload.len() > self.limit || n > self.limit - payload.len() {
            return Err(
                Error::LimitExceeded { limit: "max_tsdu", value: n.saturating_add(payload.len()) },
            );
        }
        if n == 0 && eot {
            return Ok(Some(payload));
        }
        push_all(&mut self.parts, payload);
        if eot {
            Ok(Some(self.parts.as_slice()))
        } else {
            Ok(None)
        }
    }

    /// Forget the TSDU the last [`Reassembler::push`] returned.
    pub fn take(&mut self)
        ensures
            final(self)@ == (ReassemblerModel { parts: Seq::empty(), ..old(self)@ }),
    {
        self.parts.clear();
    }
}

/// The first `n` segments put together.
pub open spec fn concat(segments: Seq<Seq<u8>>, n: nat) -> Seq<u8>
    decreases n,
{
    if n == 0 {
        Seq::empty()
    } else {
        concat(segments, (n - 1) as nat) + segments[n - 1]
    }
}

/// What is held after the first `n` segments, none of them the last.
pub open spec fn held(segments: Seq<Seq<u8>>, limit: usize, n: nat) -> Seq<u8>
    decreases n,
{
    if n == 0 {
        Seq::empty()
    } else {
        reassembled(
            held(segments, limit, (n - 1) as nat),
            limit,
            false,
            segments[n - 1],
        ).1
    }
}

/// A TSDU within the limit comes back whole, however it was cut into segments.
pub proof fn lemma_reassembly(segments: Seq<Seq<u8>>, limit: usize, n: nat)
    requires
        n < segments.len(),
        concat(segments, n + 1).len() <= limit,
    ensures
        held(segments, limit, n) == concat(segments, n),
        reassembled(held(segments, limit, n), limit, true, segments[n as int]).0 == Ok::<
            Option<Seq<u8>>,
            Error,
        >(Some(concat(segments, n + 1))),
    decreases n,
{
    if n > 0 {
        lemma_reassembly(segments, limit, (n - 1) as nat);
    }
    assert(concat(segments, n + 1) == concat(segments, n) + segments[n as int]);
    if concat(segments, n).len() == 0 {
        assert(concat(segments, n) + segments[n as int] =~= segments[n as int]);
    }
}

} // verus!
