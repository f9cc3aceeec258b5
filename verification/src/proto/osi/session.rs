//! The OSI session protocol (ISO 8327).
//!
//! An SPDU is an identifier octet, a length, and parameters, each a code, a length and a value;
//! some stand inside one parameter group. A length below 255 takes one octet, a longer one
//! `FF` and two more.
//!
//! Data transfer is two SPDUs in a row: GIVE TOKENS without parameters, then DATA TRANSFER
//! without parameters, after which the user data follows. Both have the identifier 1.

use vstd::prelude::*;
use vstd::slice::*;
use crate::ber::list::views;
use crate::ber::{first_fault, opt_view, push_all, truncated, wrote, wrote_or_left};
use crate::common::{agrees, DecodeReason, Error};

verus! {

/// DATA TRANSFER, and GIVE TOKENS, which shares the value.
pub const SI_DATA_TRANSFER: u8 = 1;
/// GIVE TOKENS.
pub const SI_GIVE_TOKENS: u8 = 1;
/// PLEASE TOKENS.
pub const SI_PLEASE_TOKENS: u8 = 2;
/// FINISH.
pub const SI_FINISH: u8 = 9;
/// DISCONNECT.
pub const SI_DISCONNECT: u8 = 10;
/// REFUSE.
pub const SI_REFUSE: u8 = 12;
/// CONNECT.
pub const SI_CONNECT: u8 = 13;
/// ACCEPT.
pub const SI_ACCEPT: u8 = 14;
/// ABORT.
pub const SI_ABORT: u8 = 25;
/// ABORT ACCEPT.
pub const SI_ABORT_ACCEPT: u8 = 26;

/// Connect/Accept Item, which groups the protocol options and version.
pub const PGI_CONNECT_ACCEPT: u8 = 5;
/// Protocol Options.
pub const PI_PROTOCOL_OPTIONS: u8 = 19;
/// Session User Requirements.
pub const PI_SESSION_REQUIREMENT: u8 = 20;
/// TSDU Maximum Size.
pub const PI_TSDU_MAX_SIZE: u8 = 21;
/// Version Number.
pub const PI_VERSION_NUMBER: u8 = 22;
/// Enclosure Item.
pub const PI_ENCLOSURE: u8 = 25;
/// Reason Code.
pub const PI_REASON_CODE: u8 = 50;
/// Calling Session Selector.
pub const PI_CALLING_SSEL: u8 = 51;
/// Called Session Selector.
pub const PI_CALLED_SSEL: u8 = 52;
/// User Data.
pub const PI_USER_DATA: u8 = 193;
/// Extended User Data.
pub const PI_EXTENDED_USER_DATA: u8 = 194;

/// Protocol version 2.
pub const VERSION_2: u8 = 0x02;
/// The duplex functional unit.
pub const REQUIREMENT_DUPLEX: u16 = 0x0002;
/// What User Data may carry.
pub const MAX_USER_DATA: usize = 512;
/// What Extended User Data may carry.
pub const MAX_EXTENDED_USER_DATA: usize = 10_240;

/// A decoded SPDU.
#[derive(Clone, Debug, PartialEq, Eq)]
pub enum Spdu<'a> {
    /// CONNECT.
    Connect(Connect<'a>),
    /// ACCEPT.
    Accept(Connect<'a>),
    /// REFUSE.
    Refuse {
        /// The reason, when the peer gave one.
        reason: Option<u8>,
        /// The user data.
        user_data: &'a [u8],
    },
    /// FINISH.
    Finish(&'a [u8]),
    /// DISCONNECT.
    Disconnect(&'a [u8]),
    /// ABORT.
    Abort(&'a [u8]),
    /// ABORT ACCEPT.
    AbortAccept,
    /// GIVE TOKENS and DATA TRANSFER, with the user data that follows.
    DataTransfer(&'a [u8]),
    /// Anything else, as its identifier and parameters.
    Other {
        /// The identifier.
        si: u8,
        /// The parameters.
        body: &'a [u8],
    },
}

/// The parameters of a CONNECT or ACCEPT.
#[derive(Clone, Copy, Debug, PartialEq, Eq)]
pub struct Connect<'a> {
    /// Protocol Options.
    pub protocol_options: u8,
    /// Version Number.
    pub version: u8,
    /// Session User Requirements.
    pub requirements: u16,
    /// Calling Session Selector.
    pub calling_ssel: Option<&'a [u8]>,
    /// Called Session Selector.
    pub called_ssel: Option<&'a [u8]>,
    /// The user data.
    pub user_data: &'a [u8],
}

/// What a [`Connect`] stands for.
pub struct ConnectModel {
    pub protocol_options: u8,
    pub version: u8,
    pub requirements: u16,
    pub calling_ssel: Option<Seq<u8>>,
    pub called_ssel: Option<Seq<u8>>,
    pub user_data: Seq<u8>,
}

impl<'a> View for Connect<'a> {
    type V = ConnectModel;

    open spec fn view(&self) -> ConnectModel {
        ConnectModel {
            protocol_options: self.protocol_options,
            version: self.version,
            requirements: self.requirements,
            calling_ssel: opt_view(self.calling_ssel),
            called_ssel: opt_view(self.called_ssel),
            user_data: self.user_data@,
        }
    }
}

/// What an [`Spdu`] stands for.
pub enum SpduModel {
    Connect(ConnectModel),
    Accept(ConnectModel),
    Refuse { reason: Option<u8>, user_data: Seq<u8> },
    Finish(Seq<u8>),
    Disconnect(Seq<u8>),
    Abort(Seq<u8>),
    AbortAccept,
    DataTransfer(Seq<u8>),
    Other { si: u8, body: Seq<u8> },
}

impl<'a> View for Spdu<'a> {
    type V = SpduModel;

    open spec fn view(&self) -> SpduModel {
        match *self {
            Spdu::Connect(c) => SpduModel::Connect(c@),
            Spdu::Accept(c) => SpduModel::Accept(c@),
            Spdu::Refuse { reason, user_data } => SpduModel::Refuse {
                reason,
                user_data: user_data@,
            },
            Spdu::Finish(u) => SpduModel::Finish(u@),
            Spdu::Disconnect(u) => SpduModel::Disconnect(u@),
            Spdu::Abort(u) => SpduModel::Abort(u@),
            Spdu::AbortAccept => SpduModel::AbortAccept,
            Spdu::DataTransfer(u) => SpduModel::DataTransfer(u@),
            Spdu::Other { si, body } => SpduModel::Other { si, body: body@ },
        }
    }
}

impl<'a> Default for Connect<'a> {
    /// Everything zero or absent, which proposes nothing: see [`Connect::new`].
    fn default() -> (r: Connect<'a>)
        ensures
            r@ == (ConnectModel {
                protocol_options: 0,
                version: 0,
                requirements: 0,
                calling_ssel: None,
                called_ssel: None,
                user_data: Seq::empty(),
            }),
    {
        let user_data: &'a [u8] = &[];
        assert(user_data@ =~= Seq::<u8>::empty());
        Connect {
            protocol_options: 0,
            version: 0,
            requirements: 0,
            calling_ssel: None,
            called_ssel: None,
            user_data,
        }
    }
}

impl<'a> Connect<'a> {
    /// The usual proposal: version 2, duplex, no extended concatenation.
    pub fn new(
        calling_ssel: Option<&'a [u8]>,
        called_ssel: Option<&'a [u8]>,
        user_data: &'a [u8],
    ) -> (r: Connect<'a>)
        ensures
            r@ == (ConnectModel {
                protocol_options: 0,
                version: VERSION_2,
                requirements: REQUIREMENT_DUPLEX,
                calling_ssel: opt_view(calling_ssel),
                called_ssel: opt_view(called_ssel),
                user_data: user_data@,
            }),
    {
        Connect {
            protocol_options: 0,
            version: VERSION_2,
            requirements: REQUIREMENT_DUPLEX,
            calling_ssel,
            called_ssel,
            user_data,
        }
    }
}

// ---- lengths and parameters ------------------------------------------------------------

/// The length at a position, and where what it measures starts.
pub open spec fn li_at(b: Seq<u8>, at: nat) -> Result<(nat, nat), Error> {
    if at >= b.len() {
        truncated(at)
    } else if b[at as int] != 0xFF {
        Ok((b[at as int] as nat, at + 1))
    } else if at + 2 >= b.len() {
        truncated(at + 1)
    } else {
        Ok(((b[at + 1int] * 256 + b[at + 2int]) as nat, at + 3))
    }
}

/// The length octets for `n`.
pub open spec fn li_octets(n: nat) -> Seq<u8> {
    if n < 0xFF {
        seq![n as u8]
    } else {
        seq![0xFFu8, (n / 256) as u8, (n % 256) as u8]
    }
}

/// What is wrong with a length.
pub open spec fn li_fault(n: nat) -> Option<Error> {
    if n > 65535 {
        Some(Error::Encode("session parameter exceeds 65535 octets"))
    } else {
        None
    }
}

/// One parameter: its code and its value.
#[derive(Clone, Copy, Debug)]
pub struct Param<'a> {
    /// The code.
    pub code: u8,
    /// The value.
    pub value: &'a [u8],
}

/// What a [`Param`] stands for.
pub struct ParamModel {
    pub code: u8,
    pub value: Seq<u8>,
}

impl<'a> View for Param<'a> {
    type V = ParamModel;

    open spec fn view(&self) -> ParamModel {
        ParamModel { code: self.code, value: self.value@ }
    }
}

/// The parameters from a position on, after `acc`. A group at the top level is opened; inside
/// it, or where `groups` is zero, it is a parameter like any other.
pub open spec fn params_at(b: Seq<u8>, at: nat, groups: nat, acc: Seq<ParamModel>) -> Result<
    Seq<ParamModel>,
    Error,
>
    decreases groups, b.len() - at,
{
    if at >= b.len() {
        Ok(acc)
    } else {
        match li_at(b, at + 1) {
            Err(e) => Err(e),
            Ok((len, start)) => if start + len > b.len() {
                truncated(start)
            } else {
                let value = b.subrange(start as int, (start + len) as int);
                if b[at as int] == PGI_CONNECT_ACCEPT && groups > 0 {
                    match params_at(value, 0, (groups - 1) as nat, acc) {
                        Err(e) => Err(e),
                        Ok(inner) => params_at(b, start + len, groups, inner),
                    }
                } else {
                    params_at(
                        b,
                        start + len,
                        groups,
                        acc.push(ParamModel { code: b[at as int], value }),
                    )
                }
            },
        }
    }
}

/// The value of the last parameter with this code.
pub open spec fn last_param(p: Seq<ParamModel>, code: u8) -> Option<Seq<u8>>
    decreases p.len(),
{
    if p.len() == 0 {
        None
    } else if p.last().code == code {
        Some(p.last().value)
    } else {
        last_param(p.drop_last(), code)
    }
}

/// The last user data, in either of its two parameters; nothing where there is none.
pub open spec fn user_data_in(p: Seq<ParamModel>) -> Seq<u8>
    decreases p.len(),
{
    if p.len() == 0 {
        Seq::empty()
    } else if p.last().code == PI_USER_DATA || p.last().code == PI_EXTENDED_USER_DATA {
        p.last().value
    } else {
        user_data_in(p.drop_last())
    }
}

/// Two octets as a number; one octet is the number itself.
pub open spec fn u16_of(v: Seq<u8>) -> u16 {
    if v.len() >= 2 {
        (v[0] * 256 + v[1]) as u16
    } else if v.len() == 1 {
        v[0] as u16
    } else {
        0
    }
}

/// The parameters of a CONNECT or ACCEPT.
pub open spec fn connect_in(p: Seq<ParamModel>) -> ConnectModel {
    ConnectModel {
        protocol_options: match last_param(p, PI_PROTOCOL_OPTIONS) {
            Some(v) => if v.len() > 0 {
                v[0]
            } else {
                0
            },
            None => 0,
        },
        version: match last_param(p, PI_VERSION_NUMBER) {
            Some(v) => if v.len() > 0 {
                v[0]
            } else {
                VERSION_2
            },
            None => 0,
        },
        requirements: match last_param(p, PI_SESSION_REQUIREMENT) {
            Some(v) => u16_of(v),
            None => 0,
        },
        calling_ssel: last_param(p, PI_CALLING_SSEL),
        called_ssel: last_param(p, PI_CALLED_SSEL),
        user_data: user_data_in(p),
    }
}

/// The reason code, where there is one and it has a value.
pub open spec fn reason_in(p: Seq<ParamModel>) -> Option<u8> {
    match last_param(p, PI_REASON_CODE) {
        Some(v) => if v.len() > 0 {
            Some(v[0])
        } else {
            None
        },
        None => None,
    }
}

/// The data transfer behind an empty GIVE TOKENS that ends at `at`.
pub open spec fn data_transfer_of(after: Seq<u8>, at: nat) -> Result<SpduModel, Error> {
    if after.len() == 0 {
        Err(Error::Decode { reason: DecodeReason::MissingField, offset: at as usize })
    } else if after[0] != SI_DATA_TRANSFER {
        Err(Error::Decode { reason: DecodeReason::UnexpectedTag, offset: at as usize })
    } else {
        match li_at(after, 1) {
            Err(e) => Err(e),
            Ok((len, start)) => if start + len > after.len() {
                truncated(start)
            } else {
                Ok(SpduModel::DataTransfer(after.skip((start + len) as int)))
            },
        }
    }
}

/// The SPDU with this identifier and these parameters.
pub open spec fn spdu_in(si: u8, body: Seq<u8>) -> Result<SpduModel, Error> {
    if si == SI_CONNECT || si == SI_ACCEPT || si == SI_REFUSE || si == SI_FINISH || si
        == SI_DISCONNECT || si == SI_ABORT {
        match params_at(body, 0, 1, Seq::empty()) {
            Err(e) => Err(e),
            Ok(p) => Ok(
                if si == SI_CONNECT {
                    SpduModel::Connect(connect_in(p))
                } else if si == SI_ACCEPT {
                    SpduModel::Accept(connect_in(p))
                } else if si == SI_REFUSE {
                    SpduModel::Refuse { reason: reason_in(p), user_data: user_data_in(p) }
                } else if si == SI_FINISH {
                    SpduModel::Finish(user_data_in(p))
                } else if si == SI_DISCONNECT {
                    SpduModel::Disconnect(user_data_in(p))
                } else {
                    SpduModel::Abort(user_data_in(p))
                },
            ),
        }
    } else if si == SI_ABORT_ACCEPT {
        Ok(SpduModel::AbortAccept)
    } else {
        Ok(SpduModel::Other { si, body })
    }
}

/// The SPDU that octets are.
#[verifier::opaque]
pub open spec fn spdu_of(b: Seq<u8>) -> Result<SpduModel, Error> {
    if b.len() == 0 {
        truncated(0)
    } else {
        match li_at(b, 1) {
            Err(e) => Err(e),
            Ok((li, start)) => if start + li > b.len() {
                truncated(start)
            } else if b[0] == SI_GIVE_TOKENS && li == 0 {
                data_transfer_of(b.skip(start as int), start)
            } else {
                spdu_in(b[0], b.subrange(start as int, (start + li) as int))
            },
        }
    }
}

fn read_li(buf: &[u8], at: usize) -> (r: Result<(usize, usize), Error>)
    requires
        at <= buf.len(),
    ensures
        match r {
            Ok((len, start)) => start <= buf.len() && li_at(buf@, at as nat) == Ok::<
                (nat, nat),
                Error,
            >((len as nat, start as nat)),
            Err(e) => li_at(buf@, at as nat) == Err::<(nat, nat), Error>(e),
        },
{
    if at >= buf.len() {
        return Err(Error::decode(DecodeReason::Truncated, at));
    }
    if buf[at] != 0xFF {
        return Ok((buf[at] as usize, at + 1));
    }
    if buf.len() - at < 3 {
        return Err(Error::decode(DecodeReason::Truncated, at + 1));
    }
    Ok((buf[at + 1] as usize * 256 + buf[at + 2] as usize, at + 3))
}

fn read_params<'a>(body: &'a [u8], groups: u8, out: &mut Vec<Param<'a>>) -> (r: Result<(), Error>)
    ensures
        match r {
            Ok(_) => params_at(body@, 0, groups as nat, views(old(out)@)) == Ok::<
                Seq<ParamModel>,
                Error,
            >(views(final(out)@)),
            Err(e) => params_at(body@, 0, groups as nat, views(old(out)@)) == Err::<
                Seq<ParamModel>,
                Error,
            >(e),
        },
    decreases groups,
{
    let mut at: usize = 0;
    while at < body.len()
        invariant
            at <= body.len(),
            params_at(body@, 0, groups as nat, views(old(out)@)) == params_at(
                body@,
                at as nat,
                groups as nat,
                views(out@),
            ),
        decreases body.len() - at,
    {
        let code: u8 = body[at];
        let (len, start) = read_li(body, at + 1)?;
        if body.len() - start < len {
            return Err(Error::decode(DecodeReason::Truncated, start));
        }
        let value = slice_subrange(body, start, start + len);
        if code == PGI_CONNECT_ACCEPT && groups > 0 {
            read_params(value, groups - 1, out)?;
        } else {
            let ghost before = views(out@);
            let p = Param { code, value };
            out.push(p);
            assert(views(out@) =~= before.push(p@));
        }
        at = start + len;
    }
    Ok(())
}

fn find_param<'a>(p: &Vec<Param<'a>>, code: u8) -> (r: Option<&'a [u8]>)
    ensures
        opt_view(r) == last_param(views(p@), code),
{
    let mut i: usize = p.len();
    let ghost all = views(p@);
    assert(all.take(i as int) =~= all);
    while i > 0
        invariant
            i <= p.len(),
            all == views(p@),
            last_param(all, code) == last_param(all.take(i as int), code),
        decreases i,
    {
        i -= 1;
        assert(all.take(i + 1).drop_last() =~= all.take(i as int));
        if p[i].code == code {
            return Some(p[i].value);
        }
    }
    None
}

fn find_user_data<'a>(p: &Vec<Param<'a>>, none: &'a [u8]) -> (r: &'a [u8])
    requires
        none@ == Seq::<u8>::empty(),
    ensures
        r@ == user_data_in(views(p@)),
{
    let mut i: usize = p.len();
    let ghost all = views(p@);
    assert(all.take(i as int) =~= all);
    while i > 0
        invariant
            i <= p.len(),
            all == views(p@),
            user_data_in(all) == user_data_in(all.take(i as int)),
        decreases i,
    {
        i -= 1;
        assert(all.take(i + 1).drop_last() =~= all.take(i as int));
        if p[i].code == PI_USER_DATA || p[i].code == PI_EXTENDED_USER_DATA {
            return p[i].value;
        }
    }
    none
}

fn first_or(v: Option<&[u8]>, absent: u8, empty: u8) -> (r: u8)
    ensures
        r == (match opt_view(v) {
            Some(s) => if s.len() > 0 {
                s[0]
            } else {
                empty
            },
            None => absent,
        }),
{
    match v {
        Some(s) => if s.len() > 0 {
            s[0]
        } else {
            empty
        },
        None => absent,
    }
}

fn be_u16(v: &[u8]) -> (r: u16)
    ensures
        r == u16_of(v@),
{
    if v.len() >= 2 {
        v[0] as u16 * 256 + v[1] as u16
    } else if v.len() == 1 {
        v[0] as u16
    } else {
        0
    }
}

fn read_connect<'a>(p: &Vec<Param<'a>>, none: &'a [u8]) -> (r: Connect<'a>)
    requires
        none@ == Seq::<u8>::empty(),
    ensures
        r@ == connect_in(views(p@)),
{
    Connect {
        protocol_options: first_or(find_param(p, PI_PROTOCOL_OPTIONS), 0, 0),
        version: first_or(find_param(p, PI_VERSION_NUMBER), 0, VERSION_2),
        requirements: match find_param(p, PI_SESSION_REQUIREMENT) {
            Some(v) => be_u16(v),
            None => 0,
        },
        calling_ssel: find_param(p, PI_CALLING_SSEL),
        called_ssel: find_param(p, PI_CALLED_SSEL),
        user_data: find_user_data(p, none),
    }
}

// ---- encoding --------------------------------------------------------------------------

/// A parameter.
pub open spec fn param_bytes(code: u8, v: Seq<u8>) -> Seq<u8> {
    seq![code] + (li_octets(v.len()) + v)
}

/// A parameter, where there is one.
pub open spec fn opt_param_bytes(code: u8, v: Option<Seq<u8>>) -> Seq<u8> {
    match v {
        Some(v) => param_bytes(code, v),
        None => Seq::empty(),
    }
}

/// What is wrong with an optional parameter.
pub open spec fn opt_param_fault(v: Option<Seq<u8>>) -> Option<Error> {
    match v {
        Some(v) => li_fault(v.len()),
        None => None,
    }
}

/// The user data of a CONNECT or ACCEPT: Extended User Data above what User Data may carry.
pub open spec fn connect_data_bytes(u: Seq<u8>) -> Seq<u8> {
    if u.len() == 0 {
        Seq::empty()
    } else if u.len() > MAX_USER_DATA {
        param_bytes(PI_EXTENDED_USER_DATA, u)
    } else {
        param_bytes(PI_USER_DATA, u)
    }
}

/// What is wrong with the user data of a CONNECT or ACCEPT. Only a CONNECT has Extended User
/// Data.
pub open spec fn connect_data_fault(u: Seq<u8>, connect: bool) -> Option<Error> {
    if u.len() > MAX_USER_DATA && !connect {
        Some(Error::Encode("an ACCEPT SPDU carries at most 512 octets of user data"))
    } else if u.len() > MAX_EXTENDED_USER_DATA {
        Some(
            Error::Encode(
                "session user data above 10240 octets needs a CONNECT DATA OVERFLOW SPDU",
            ),
        )
    } else {
        None
    }
}

/// The fixed parameters of a CONNECT or ACCEPT: the group, and the requirements.
pub open spec fn fixed_params(m: ConnectModel) -> Seq<u8> {
    seq![
        PGI_CONNECT_ACCEPT,
        6,
        PI_PROTOCOL_OPTIONS,
        1,
        m.protocol_options,
        PI_VERSION_NUMBER,
        1,
        m.version,
        PI_SESSION_REQUIREMENT,
        2,
        (m.requirements / 256) as u8,
        (m.requirements % 256) as u8,
    ]
}

/// The parameters of a CONNECT or ACCEPT.
pub open spec fn connect_body(m: ConnectModel) -> Seq<u8> {
    fixed_params(m) + (opt_param_bytes(PI_CALLING_SSEL, m.calling_ssel) + (opt_param_bytes(
        PI_CALLED_SSEL,
        m.called_ssel,
    ) + connect_data_bytes(m.user_data)))
}

/// Why a CONNECT or ACCEPT has no encoding.
pub open spec fn connect_fault(m: ConnectModel, connect: bool) -> Option<Error> {
    first_fault(
        opt_param_fault(m.calling_ssel),
        first_fault(
            opt_param_fault(m.called_ssel),
            first_fault(
                connect_data_fault(m.user_data, connect),
                li_fault(connect_body(m).len()),
            ),
        ),
    )
}

/// The user data of any other SPDU.
pub open spec fn user_data_bytes(u: Seq<u8>) -> Seq<u8> {
    if u.len() == 0 {
        Seq::empty()
    } else {
        param_bytes(PI_USER_DATA, u)
    }
}

/// What is wrong with the user data of any other SPDU.
pub open spec fn user_data_fault(u: Seq<u8>) -> Option<Error> {
    if u.len() > MAX_USER_DATA {
        Some(Error::Encode("session user data above 512 octets needs Extended User Data"))
    } else {
        None
    }
}

/// The reason code parameter, where there is one.
pub open spec fn reason_bytes(reason: Option<u8>) -> Seq<u8> {
    match reason {
        Some(r) => seq![PI_REASON_CODE, 1, r],
        None => Seq::empty(),
    }
}

/// An SPDU.
pub open spec fn framed(si: u8, body: Seq<u8>) -> Seq<u8> {
    seq![si] + (li_octets(body.len()) + body)
}

/// The octets of an SPDU.
pub open spec fn spdu_bytes(m: SpduModel) -> Seq<u8> {
    match m {
        SpduModel::DataTransfer(u) => seq![SI_GIVE_TOKENS, 0, SI_DATA_TRANSFER, 0] + u,
        SpduModel::Connect(c) => framed(SI_CONNECT, connect_body(c)),
        SpduModel::Accept(c) => framed(SI_ACCEPT, connect_body(c)),
        SpduModel::Refuse { reason, user_data } => framed(
            SI_REFUSE,
            reason_bytes(reason) + user_data_bytes(user_data),
        ),
        SpduModel::Finish(u) => framed(SI_FINISH, user_data_bytes(u)),
        SpduModel::Disconnect(u) => framed(SI_DISCONNECT, user_data_bytes(u)),
        SpduModel::Abort(u) => framed(SI_ABORT, user_data_bytes(u)),
        SpduModel::AbortAccept => seq![SI_ABORT_ACCEPT, 0],
        SpduModel::Other { si, body } => framed(si, body),
    }
}

/// Why an SPDU has no encoding.
pub open spec fn spdu_fault(m: SpduModel) -> Option<Error> {
    match m {
        SpduModel::Connect(c) => connect_fault(c, true),
        SpduModel::Accept(c) => connect_fault(c, false),
        SpduModel::Refuse { user_data, .. } => user_data_fault(user_data),
        SpduModel::Finish(u) => user_data_fault(u),
        SpduModel::Disconnect(u) => user_data_fault(u),
        SpduModel::Abort(u) => user_data_fault(u),
        SpduModel::Other { body, .. } => li_fault(body.len()),
        _ => None,
    }
}

/// What has been written of a CONNECT or ACCEPT when it turns out to have no encoding: nothing, or
/// its identifier where its parameters together are too long.
pub open spec fn connect_left(si: u8, m: ConnectModel, connect: bool) -> Seq<u8> {
    if opt_param_fault(m.calling_ssel) is Some || opt_param_fault(m.called_ssel) is Some
        || connect_data_fault(m.user_data, connect) is Some {
        Seq::empty()
    } else {
        seq![si]
    }
}

/// What has been written of an SPDU when it turns out to have no encoding.
pub open spec fn spdu_left(m: SpduModel) -> Seq<u8> {
    match m {
        SpduModel::Connect(c) => connect_left(SI_CONNECT, c, true),
        SpduModel::Accept(c) => connect_left(SI_ACCEPT, c, false),
        SpduModel::Other { si, .. } => seq![si],
        _ => Seq::empty(),
    }
}

fn write_li(len: usize, out: &mut Vec<u8>) -> (r: Result<(), Error>)
    ensures
        wrote(r, old(out)@, final(out)@, li_fault(len as nat), li_octets(len as nat)),
{
    if len < 0xFF {
        out.push(len as u8);
        assert(out@ =~= old(out)@ + li_octets(len as nat));
        return Ok(());
    }
    if len > 65535 {
        return Err(Error::Encode("session parameter exceeds 65535 octets"));
    }
    out.push(0xFF);
    out.push((len / 256) as u8);
    out.push((len % 256) as u8);
    assert(out@ =~= old(out)@ + li_octets(len as nat));
    Ok(())
}

fn write_param(code: u8, v: &[u8], out: &mut Vec<u8>) -> (r: Result<(), Error>)
    ensures
        match li_fault(v@.len()) {
            None => r is Ok && final(out)@ == old(out)@ + param_bytes(code, v@),
            Some(f) => r == Err::<(), Error>(f),
        },
{
    out.push(code);
    write_li(v.len(), out)?;
    push_all(out, v);
    assert(out@ =~= old(out)@ + param_bytes(code, v@));
    Ok(())
}

fn write_opt_param(code: u8, v: Option<&[u8]>, out: &mut Vec<u8>) -> (r: Result<(), Error>)
    ensures
        match opt_param_fault(opt_view(v)) {
            None => r is Ok && final(out)@ == old(out)@ + opt_param_bytes(code, opt_view(v)),
            Some(f) => r == Err::<(), Error>(f),
        },
{
    match v {
        Some(v) => write_param(code, v, out),
        None => {
            assert(out@ =~= old(out)@ + opt_param_bytes(code, opt_view(v)));
            Ok(())
        },
    }
}

fn write_framed(si: u8, body: &[u8], out: &mut Vec<u8>) -> (r: Result<(), Error>)
    ensures
        wrote_or_left(
            r,
            old(out)@,
            final(out)@,
            li_fault(body@.len()),
            framed(si, body@),
            seq![si],
        ),
{
    out.push(si);
    assert(out@ =~= old(out)@ + seq![si]);
    write_li(body.len(), out)?;
    push_all(out, body);
    assert(out@ =~= old(out)@ + framed(si, body@));
    Ok(())
}

fn write_user_data(u: &[u8], out: &mut Vec<u8>) -> (r: Result<(), Error>)
    ensures
        match user_data_fault(u@) {
            None => r is Ok && final(out)@ == old(out)@ + user_data_bytes(u@),
            Some(f) => r == Err::<(), Error>(f),
        },
{
    if u.len() == 0 {
        assert(out@ =~= old(out)@ + user_data_bytes(u@));
        return Ok(());
    }
    if u.len() > MAX_USER_DATA {
        return Err(
            Error::Encode("session user data above 512 octets needs Extended User Data"),
        );
    }
    write_param(PI_USER_DATA, u, out)
}

fn write_connect(c: &Connect<'_>, connect: bool, out: &mut Vec<u8>) -> (r: Result<(), Error>)
    ensures
        ({
            let si = if connect {
                SI_CONNECT
            } else {
                SI_ACCEPT
            };
            wrote_or_left(
                r,
                old(out)@,
                final(out)@,
                connect_fault(c@, connect),
                framed(si, connect_body(c@)),
                connect_left(si, c@, connect),
            )
        }),
{
    assert(out@ + Seq::<u8>::empty() =~= out@);
    let mut body: Vec<u8> = Vec::new();
    body.push(PGI_CONNECT_ACCEPT);
    body.push(6);
    body.push(PI_PROTOCOL_OPTIONS);
    body.push(1);
    body.push(c.protocol_options);
    body.push(PI_VERSION_NUMBER);
    body.push(1);
    body.push(c.version);
    body.push(PI_SESSION_REQUIREMENT);
    body.push(2);
    body.push((c.requirements / 256) as u8);
    body.push((c.requirements % 256) as u8);
    assert(body@ =~= fixed_params(c@));
    write_opt_param(PI_CALLING_SSEL, c.calling_ssel, &mut body)?;
    write_opt_param(PI_CALLED_SSEL, c.called_ssel, &mut body)?;
    if c.user_data.len() > 0 {
        let extended = c.user_data.len() > MAX_USER_DATA;
        if extended && !connect {
            return Err(
                Error::Encode("an ACCEPT SPDU carries at most 512 octets of user data"),
            );
        }
        if c.user_data.len() > MAX_EXTENDED_USER_DATA {
            return Err(
                Error::Encode(
                    "session user data above 10240 octets needs a CONNECT DATA OVERFLOW SPDU",
                ),
            );
        }
        let code: u8 = if extended {
            PI_EXTENDED_USER_DATA
        } else {
            PI_USER_DATA
        };
        write_param(code, c.user_data, &mut body)?;
    }
    assert(body@ =~= connect_body(c@));
    let si: u8 = if connect {
        SI_CONNECT
    } else {
        SI_ACCEPT
    };
    write_framed(si, &body, out)
}

impl<'a> Spdu<'a> {
    /// Decode one SPDU, which is the whole of a TSDU.
    pub fn parse(buf: &'a [u8]) -> (r: Result<Spdu<'a>, Error>)
        ensures
            agrees(r, spdu_of(buf@)),
    {
        reveal(spdu_of);
        if buf.len() == 0 {
            return Err(Error::decode(DecodeReason::Truncated, 0));
        }
        let si: u8 = buf[0];
        let (li, start) = read_li(buf, 1)?;
        if buf.len() - start < li {
            return Err(Error::decode(DecodeReason::Truncated, start));
        }
        let body = slice_subrange(buf, start, start + li);
        if si == SI_GIVE_TOKENS && li == 0 {
            let after = slice_subrange(buf, start, buf.len());
            assert(after@ =~= buf@.skip(start as int));
            if after.len() == 0 {
                return Err(Error::decode(DecodeReason::MissingField, start));
            }
            if after[0] != SI_DATA_TRANSFER {
                return Err(Error::decode(DecodeReason::UnexpectedTag, start));
            }
            let (dt_li, dt_at) = read_li(after, 1)?;
            if after.len() - dt_at < dt_li {
                return Err(Error::decode(DecodeReason::Truncated, dt_at));
            }
            let payload = slice_subrange(after, dt_at + dt_li, after.len());
            assert(payload@ =~= after@.skip(dt_at + dt_li));
            return Ok(Spdu::DataTransfer(payload));
        }
        if si == SI_ABORT_ACCEPT {
            return Ok(Spdu::AbortAccept);
        }
        if !(si == SI_CONNECT || si == SI_ACCEPT || si == SI_REFUSE || si == SI_FINISH || si
            == SI_DISCONNECT || si == SI_ABORT) {
            return Ok(Spdu::Other { si, body });
        }
        let none = slice_subrange(buf, 0, 0);
        assert(none@ =~= Seq::<u8>::empty());
        let mut p: Vec<Param<'a>> = Vec::new();
        assert(views(p@) =~= Seq::<ParamModel>::empty());
        read_params(body, 1, &mut p)?;
        if si == SI_CONNECT {
            Ok(Spdu::Connect(read_connect(&p, none)))
        } else if si == SI_ACCEPT {
            Ok(Spdu::Accept(read_connect(&p, none)))
        } else {
            let user_data = find_user_data(&p, none);
            if si == SI_REFUSE {
                let reason: Option<u8> = match find_param(&p, PI_REASON_CODE) {
                    Some(v) => if v.len() > 0 {
                        Some(v[0])
                    } else {
                        None
                    },
                    None => None,
                };
                Ok(Spdu::Refuse { reason, user_data })
            } else if si == SI_FINISH {
                Ok(Spdu::Finish(user_data))
            } else if si == SI_DISCONNECT {
                Ok(Spdu::Disconnect(user_data))
            } else {
                Ok(Spdu::Abort(user_data))
            }
        }
    }

    /// Encode into `out`. One whose parameters together are too long leaves its identifier there.
    pub fn write(&self, out: &mut Vec<u8>) -> (r: Result<(), Error>)
        ensures
            wrote_or_left(
                r,
                old(out)@,
                final(out)@,
                spdu_fault(self@),
                spdu_bytes(self@),
                spdu_left(self@),
            ),
    {
        assert(out@ + Seq::<u8>::empty() =~= out@);
        match self {
            Spdu::DataTransfer(payload) => {
                out.push(SI_GIVE_TOKENS);
                out.push(0);
                out.push(SI_DATA_TRANSFER);
                out.push(0);
                push_all(out, payload);
                assert(out@ =~= old(out)@ + spdu_bytes(self@));
                Ok(())
            },
            Spdu::Connect(c) => write_connect(c, true, out),
            Spdu::Accept(c) => write_connect(c, false, out),
            Spdu::Refuse { reason, user_data } => {
                let mut body: Vec<u8> = Vec::new();
                if let Some(r) = reason {
                    body.push(PI_REASON_CODE);
                    body.push(1);
                    body.push(*r);
                }
                assert(body@ =~= reason_bytes(*reason));
                write_user_data(user_data, &mut body)?;
                write_framed(SI_REFUSE, &body, out)
            },
            Spdu::Finish(u) => {
                let mut body: Vec<u8> = Vec::new();
                write_user_data(u, &mut body)?;
                assert(body@ =~= user_data_bytes(u@));
                write_framed(SI_FINISH, &body, out)
            },
            Spdu::Disconnect(u) => {
                let mut body: Vec<u8> = Vec::new();
                write_user_data(u, &mut body)?;
                assert(body@ =~= user_data_bytes(u@));
                write_framed(SI_DISCONNECT, &body, out)
            },
            Spdu::Abort(u) => {
                let mut body: Vec<u8> = Vec::new();
                write_user_data(u, &mut body)?;
                assert(body@ =~= user_data_bytes(u@));
                write_framed(SI_ABORT, &body, out)
            },
            Spdu::AbortAccept => {
                out.push(SI_ABORT_ACCEPT);
                out.push(0);
                assert(out@ =~= old(out)@ + spdu_bytes(self@));
                Ok(())
            },
            Spdu::Other { si, body } => {
                write_framed(*si, body, out)
            },
        }
    }
}

// ---- laws ------------------------------------------------------------------------------

/// A length reads back.
proof fn lemma_li(b: Seq<u8>, at: nat, n: nat)
    requires
        n <= 65535,
        at + li_octets(n).len() <= b.len(),
        b.subrange(at as int, (at + li_octets(n).len()) as int) == li_octets(n),
    ensures
        li_at(b, at) == Ok::<(nat, nat), Error>((n, at + li_octets(n).len())),
{
    let s = b.subrange(at as int, (at + li_octets(n).len()) as int);
    assert(s[0] == b[at as int]);
    if n >= 0xFF {
        assert(s[1] == b[at + 1int]);
        assert(s[2] == b[at + 2int]);
    }
}

/// A parameter that stands at a position is read, and reading goes on behind it.
proof fn lemma_param(
    pre: Seq<u8>,
    code: u8,
    v: Seq<u8>,
    post: Seq<u8>,
    groups: nat,
    acc: Seq<ParamModel>,
)
    requires
        v.len() <= 65535,
        code != PGI_CONNECT_ACCEPT || groups == 0,
    ensures
        ({
            let b = pre + (param_bytes(code, v) + post);
            params_at(b, pre.len(), groups, acc) == params_at(
                b,
                pre.len() + param_bytes(code, v).len(),
                groups,
                acc.push(ParamModel { code, value: v }),
            )
        }),
{
    let b = pre + (param_bytes(code, v) + post);
    let at = pre.len();
    let n = v.len();
    assert(b[at as int] == code);
    assert(b.subrange(at + 1int, at + 1 + li_octets(n).len() as int) =~= li_octets(n));
    lemma_li(b, at + 1, n);
    let start = at + 1 + li_octets(n).len();
    assert(b.subrange(start as int, (start + n) as int) =~= v);
}

/// A list of parameters with these values, as octets.
pub open spec fn params_bytes(p: Seq<ParamModel>, i: nat) -> Seq<u8>
    decreases p.len() - i,
{
    if i < p.len() {
        param_bytes(p[i as int].code, p[i as int].value) + params_bytes(p, i + 1)
    } else {
        Seq::empty()
    }
}

/// A list of parameters reads back behind what came before.
proof fn lemma_params(pre: Seq<u8>, p: Seq<ParamModel>, i: nat, groups: nat, acc: Seq<ParamModel>)
    requires
        i <= p.len(),
        forall|j: int|
            0 <= j < p.len() ==> (#[trigger] p[j]).value.len() <= 65535 && p[j].code
                != PGI_CONNECT_ACCEPT,
    ensures
        params_at(pre + params_bytes(p, i), pre.len(), groups, acc) == Ok::<
            Seq<ParamModel>,
            Error,
        >(acc + p.skip(i as int)),
    decreases p.len() - i,
{
    if i < p.len() {
        let v = p[i as int];
        let here = param_bytes(v.code, v.value);
        let post = params_bytes(p, i + 1);
        lemma_param(pre, v.code, v.value, post, groups, acc);
        assert((pre + here) + post =~= pre + (here + post));
        lemma_params(pre + here, p, i + 1, groups, acc.push(v));
        assert(acc.push(v) + p.skip(i + 1int) =~= acc + p.skip(i as int));
    } else {
        assert(pre + params_bytes(p, i) =~= pre);
        assert(acc + p.skip(i as int) =~= acc);
    }
}

/// What stands in the group of a CONNECT or ACCEPT.
pub open spec fn grouped(m: ConnectModel) -> Seq<ParamModel> {
    seq![
        ParamModel { code: PI_PROTOCOL_OPTIONS, value: seq![m.protocol_options] },
        ParamModel { code: PI_VERSION_NUMBER, value: seq![m.version] },
    ]
}

/// One parameter, where there is a value.
pub open spec fn opt_param(code: u8, v: Option<Seq<u8>>) -> Seq<ParamModel> {
    match v {
        Some(v) => seq![ParamModel { code, value: v }],
        None => Seq::empty(),
    }
}

/// What follows the group of a CONNECT or ACCEPT.
pub open spec fn ungrouped(m: ConnectModel) -> Seq<ParamModel> {
    seq![
        ParamModel {
            code: PI_SESSION_REQUIREMENT,
            value: seq![(m.requirements / 256) as u8, (m.requirements % 256) as u8],
        },
    ] + (opt_param(PI_CALLING_SSEL, m.calling_ssel) + (opt_param(PI_CALLED_SSEL, m.called_ssel)
        + data_params(m.user_data)))
}

/// The user data of a CONNECT or ACCEPT as a parameter, where there is any.
pub open spec fn data_params(u: Seq<u8>) -> Seq<ParamModel> {
    if u.len() == 0 {
        Seq::empty()
    } else if u.len() > MAX_USER_DATA {
        seq![ParamModel { code: PI_EXTENDED_USER_DATA, value: u }]
    } else {
        seq![ParamModel { code: PI_USER_DATA, value: u }]
    }
}

proof fn lemma_params_bytes_add(a: Seq<ParamModel>, b: Seq<ParamModel>, i: nat)
    requires
        i <= a.len(),
    ensures
        params_bytes(a + b, i) == params_bytes(a, i) + params_bytes(b, 0),
    decreases a.len() - i,
{
    if i < a.len() {
        lemma_params_bytes_add(a, b, i + 1);
        assert((a + b)[i as int] == a[i as int]);
        let here = param_bytes(a[i as int].code, a[i as int].value);
        assert((here + params_bytes(a, i + 1)) + params_bytes(b, 0) =~= here + (params_bytes(
            a,
            i + 1,
        ) + params_bytes(b, 0)));
    } else {
        lemma_params_bytes_shift(a, b, i);
        assert(params_bytes(a, i) + params_bytes(b, 0) =~= params_bytes(b, 0));
    }
}

proof fn lemma_params_bytes_shift(a: Seq<ParamModel>, b: Seq<ParamModel>, i: nat)
    requires
        a.len() <= i <= a.len() + b.len(),
    ensures
        params_bytes(a + b, i) == params_bytes(b, (i - a.len()) as nat),
    decreases a.len() + b.len() - i,
{
    if i < a.len() + b.len() {
        lemma_params_bytes_shift(a, b, i + 1);
        assert((a + b)[i as int] == b[i - a.len()]);
    }
}

proof fn lemma_one_param(code: u8, v: Seq<u8>)
    ensures
        params_bytes(seq![ParamModel { code, value: v }], 0) == param_bytes(code, v),
{
    reveal_with_fuel(params_bytes, 2);
    assert(param_bytes(code, v) + Seq::<u8>::empty() =~= param_bytes(code, v));
}

proof fn lemma_ungrouped_bytes(m: ConnectModel)
    ensures
        params_bytes(ungrouped(m), 0) == fixed_params(m).skip(8) + (opt_param_bytes(
            PI_CALLING_SSEL,
            m.calling_ssel,
        ) + (opt_param_bytes(PI_CALLED_SSEL, m.called_ssel) + connect_data_bytes(m.user_data))),
{
    let req = seq![(m.requirements / 256) as u8, (m.requirements % 256) as u8];
    let p0 = seq![ParamModel { code: PI_SESSION_REQUIREMENT, value: req }];
    let p1 = opt_param(PI_CALLING_SSEL, m.calling_ssel);
    let p2 = opt_param(PI_CALLED_SSEL, m.called_ssel);
    let p3 = data_params(m.user_data);
    lemma_params_bytes_add(p0, p1 + (p2 + p3), 0);
    lemma_params_bytes_add(p1, p2 + p3, 0);
    lemma_params_bytes_add(p2, p3, 0);
    lemma_one_param(PI_SESSION_REQUIREMENT, req);
    if let Some(v) = m.calling_ssel {
        lemma_one_param(PI_CALLING_SSEL, v);
    }
    if let Some(v) = m.called_ssel {
        lemma_one_param(PI_CALLED_SSEL, v);
    }
    lemma_one_param(PI_USER_DATA, m.user_data);
    lemma_one_param(PI_EXTENDED_USER_DATA, m.user_data);
    assert(fixed_params(m).skip(8) =~= param_bytes(PI_SESSION_REQUIREMENT, req));
}

proof fn lemma_connect_params(m: ConnectModel)
    requires
        connect_fault(m, true) is None,
    ensures
        params_at(connect_body(m), 0, 1, Seq::empty()) == Ok::<Seq<ParamModel>, Error>(
            grouped(m) + ungrouped(m),
        ),
{
    let b = connect_body(m);
    let g = grouped(m);
    let inner = params_bytes(g, 0);
    lemma_one_param(PI_PROTOCOL_OPTIONS, seq![m.protocol_options]);
    lemma_one_param(PI_VERSION_NUMBER, seq![m.version]);
    let g0 = seq![ParamModel { code: PI_PROTOCOL_OPTIONS, value: seq![m.protocol_options] }];
    let g1 = seq![ParamModel { code: PI_VERSION_NUMBER, value: seq![m.version] }];
    assert(g =~= g0 + g1);
    lemma_params_bytes_add(g0, g1, 0);
    lemma_ungrouped_bytes(m);
    let tail = params_bytes(ungrouped(m), 0);
    assert(fixed_params(m) =~= (seq![PGI_CONNECT_ACCEPT, 6] + inner) + fixed_params(m).skip(8));
    let pre = seq![PGI_CONNECT_ACCEPT, 6] + inner;
    assert(b =~= pre + tail);
    assert(pre.len() == 8);
    assert(li_at(b, 1) == Ok::<(nat, nat), Error>((6, 2)));
    assert(b.subrange(2, 8) =~= inner);
    assert(Seq::<u8>::empty() + inner =~= inner);
    lemma_params(Seq::empty(), g, 0, 0, Seq::empty());
    assert(Seq::<ParamModel>::empty() + g.skip(0) =~= g);
    let u = ungrouped(m);
    assert forall|j: int| 0 <= j < u.len() implies (#[trigger] u[j]).value.len() <= 65535
        && u[j].code != PGI_CONNECT_ACCEPT by {}
    lemma_params(pre, u, 0, 1, g);
    assert(g + u.skip(0) =~= g + u);
}

proof fn lemma_last_param_add(a: Seq<ParamModel>, b: Seq<ParamModel>, code: u8)
    ensures
        last_param(a + b, code) == (match last_param(b, code) {
            Some(v) => Some(v),
            None => last_param(a, code),
        }),
    decreases b.len(),
{
    if b.len() > 0 {
        lemma_last_param_add(a, b.drop_last(), code);
        assert((a + b).drop_last() =~= a + b.drop_last());
    } else {
        assert(a + b =~= a);
    }
}

proof fn lemma_user_data_add(a: Seq<ParamModel>, b: Seq<ParamModel>)
    requires
        forall|j: int|
            0 <= j < a.len() ==> (#[trigger] a[j]).code != PI_USER_DATA && a[j].code
                != PI_EXTENDED_USER_DATA,
    ensures
        user_data_in(a + b) == user_data_in(b),
    decreases a.len() + b.len(),
{
    if b.len() > 0 {
        lemma_user_data_add(a, b.drop_last());
        assert((a + b).drop_last() =~= a + b.drop_last());
    } else if a.len() > 0 {
        assert(a + b =~= a);
        assert(a.drop_last() + b =~= a.drop_last());
        lemma_user_data_add(a.drop_last(), b);
    } else {
        assert(a + b =~= b);
    }
}

proof fn lemma_one(code: u8, v: Seq<u8>, other: u8)
    ensures
        last_param(seq![ParamModel { code, value: v }], other) == if code == other {
            Some(v)
        } else {
            None
        },
        user_data_in(seq![ParamModel { code, value: v }]) == if code == PI_USER_DATA || code
            == PI_EXTENDED_USER_DATA {
            v
        } else {
            Seq::<u8>::empty()
        },
{
    let s = seq![ParamModel { code, value: v }];
    assert(s.drop_last() =~= Seq::<ParamModel>::empty());
    reveal_with_fuel(last_param, 2);
    reveal_with_fuel(user_data_in, 2);
}

/// Looking a code up in the parameters of a CONNECT or ACCEPT finds what was put under it.
proof fn lemma_lookup(m: ConnectModel, code: u8)
    ensures
        last_param(grouped(m) + ungrouped(m), code) == (if code == PI_PROTOCOL_OPTIONS {
            Some(seq![m.protocol_options])
        } else if code == PI_VERSION_NUMBER {
            Some(seq![m.version])
        } else if code == PI_SESSION_REQUIREMENT {
            Some(seq![(m.requirements / 256) as u8, (m.requirements % 256) as u8])
        } else if code == PI_CALLING_SSEL {
            m.calling_ssel
        } else if code == PI_CALLED_SSEL {
            m.called_ssel
        } else if code == PI_USER_DATA || code == PI_EXTENDED_USER_DATA {
            last_param(data_params(m.user_data), code)
        } else {
            None
        }),
{
    let req = seq![(m.requirements / 256) as u8, (m.requirements % 256) as u8];
    let p0 = seq![ParamModel { code: PI_SESSION_REQUIREMENT, value: req }];
    let p1 = opt_param(PI_CALLING_SSEL, m.calling_ssel);
    let p2 = opt_param(PI_CALLED_SSEL, m.called_ssel);
    let p3 = data_params(m.user_data);
    let g0 = seq![ParamModel { code: PI_PROTOCOL_OPTIONS, value: seq![m.protocol_options] }];
    let g1 = seq![ParamModel { code: PI_VERSION_NUMBER, value: seq![m.version] }];
    assert(grouped(m) =~= g0 + g1);
    lemma_last_param_add(g0, g1, code);
    lemma_last_param_add(grouped(m), ungrouped(m), code);
    lemma_last_param_add(p0, p1 + (p2 + p3), code);
    lemma_last_param_add(p1, p2 + p3, code);
    lemma_last_param_add(p2, p3, code);
    lemma_one(PI_PROTOCOL_OPTIONS, seq![m.protocol_options], code);
    lemma_one(PI_VERSION_NUMBER, seq![m.version], code);
    lemma_one(PI_SESSION_REQUIREMENT, req, code);
    if let Some(v) = m.calling_ssel {
        lemma_one(PI_CALLING_SSEL, v, code);
    }
    if let Some(v) = m.called_ssel {
        lemma_one(PI_CALLED_SSEL, v, code);
    }
    lemma_one(PI_USER_DATA, m.user_data, code);
    lemma_one(PI_EXTENDED_USER_DATA, m.user_data, code);
}

proof fn lemma_connect_round_trip(m: ConnectModel)
    requires
        connect_fault(m, true) is None,
    ensures
        params_at(connect_body(m), 0, 1, Seq::empty()) matches Ok(p) && connect_in(p) == m,
{
    lemma_connect_params(m);
    lemma_lookup(m, PI_PROTOCOL_OPTIONS);
    lemma_lookup(m, PI_VERSION_NUMBER);
    lemma_lookup(m, PI_SESSION_REQUIREMENT);
    lemma_lookup(m, PI_CALLING_SSEL);
    lemma_lookup(m, PI_CALLED_SSEL);
    let req = seq![(m.requirements / 256) as u8, (m.requirements % 256) as u8];
    assert(u16_of(req) == m.requirements);
    let p0 = seq![ParamModel { code: PI_SESSION_REQUIREMENT, value: req }];
    let p1 = opt_param(PI_CALLING_SSEL, m.calling_ssel);
    let p2 = opt_param(PI_CALLED_SSEL, m.called_ssel);
    let p3 = data_params(m.user_data);
    let front = grouped(m) + (p0 + (p1 + p2));
    assert(grouped(m) + ungrouped(m) =~= front + p3);
    lemma_user_data_add(front, p3);
    lemma_one(PI_USER_DATA, m.user_data, 0);
    lemma_one(PI_EXTENDED_USER_DATA, m.user_data, 0);
    if m.user_data.len() == 0 {
        assert(m.user_data =~= Seq::<u8>::empty());
    }
}

proof fn lemma_framed(si: u8, body: Seq<u8>)
    requires
        body.len() <= 65535,
        !(si == SI_GIVE_TOKENS && body.len() == 0),
    ensures
        spdu_of(framed(si, body)) == spdu_in(si, body),
{
    reveal(spdu_of);
    let b = framed(si, body);
    let n = li_octets(body.len()).len();
    assert(b.subrange(1, 1 + n as int) =~= li_octets(body.len()));
    lemma_li(b, 1, body.len());
    assert(b.subrange(1 + n as int, (1 + n + body.len()) as int) =~= body);
}

proof fn lemma_user_data_round_trip(reason: Option<u8>, u: Seq<u8>)
    requires
        user_data_fault(u) is None,
    ensures
        ({
            let body = reason_bytes(reason) + user_data_bytes(u);
            body.len() <= 65535 && (params_at(body, 0, 1, Seq::empty()) matches Ok(p) && reason_in(
                p,
            ) == reason && user_data_in(p) == u)
        }),
{
    let r = opt_param(PI_REASON_CODE, match reason {
        Some(x) => Some(seq![x]),
        None => None,
    });
    let d = data_params(u);
    let p = r + d;
    lemma_params_bytes_add(r, d, 0);
    if let Some(x) = reason {
        lemma_one_param(PI_REASON_CODE, seq![x]);
        assert(reason_bytes(reason) =~= param_bytes(PI_REASON_CODE, seq![x]));
        lemma_one(PI_REASON_CODE, seq![x], PI_REASON_CODE);
    }
    lemma_one_param(PI_USER_DATA, u);
    let body = reason_bytes(reason) + user_data_bytes(u);
    assert(body =~= params_bytes(p, 0));
    assert(Seq::<u8>::empty() + params_bytes(p, 0) =~= body);
    assert forall|j: int| 0 <= j < p.len() implies (#[trigger] p[j]).value.len() <= 65535
        && p[j].code != PGI_CONNECT_ACCEPT by {}
    lemma_params(Seq::empty(), p, 0, 1, Seq::empty());
    assert(Seq::<ParamModel>::empty() + p.skip(0) =~= p);
    lemma_last_param_add(r, d, PI_REASON_CODE);
    lemma_one(PI_USER_DATA, u, PI_REASON_CODE);
    lemma_user_data_add(r, d);
    if u.len() == 0 {
        assert(u =~= Seq::<u8>::empty());
    }
}

/// Whether a kept SPDU is one that has no variant of its own.
pub open spec fn spdu_fits(m: SpduModel) -> bool {
    m matches SpduModel::Other { si, body } ==> si != SI_CONNECT && si != SI_ACCEPT && si
        != SI_REFUSE && si != SI_FINISH && si != SI_DISCONNECT && si != SI_ABORT && si
        != SI_ABORT_ACCEPT && !(si == SI_GIVE_TOKENS && body.len() == 0)
}

/// An SPDU that has an encoding reads back as it was.
pub proof fn lemma_spdu_round_trip(m: SpduModel)
    requires
        spdu_fault(m) is None,
        spdu_fits(m),
    ensures
        spdu_of(spdu_bytes(m)) == Ok::<SpduModel, Error>(m),
{
    reveal(spdu_of);
    let b = spdu_bytes(m);
    match m {
        SpduModel::Connect(c) => {
            lemma_framed(SI_CONNECT, connect_body(c));
            lemma_connect_round_trip(c);
        },
        SpduModel::Accept(c) => {
            lemma_framed(SI_ACCEPT, connect_body(c));
            lemma_connect_round_trip(c);
        },
        SpduModel::Refuse { reason, user_data } => {
            lemma_user_data_round_trip(reason, user_data);
            lemma_framed(SI_REFUSE, reason_bytes(reason) + user_data_bytes(user_data));
        },
        SpduModel::Finish(u) => {
            lemma_user_data_round_trip(None, u);
            assert(reason_bytes(None) + user_data_bytes(u) =~= user_data_bytes(u));
            lemma_framed(SI_FINISH, user_data_bytes(u));
        },
        SpduModel::Disconnect(u) => {
            lemma_user_data_round_trip(None, u);
            assert(reason_bytes(None) + user_data_bytes(u) =~= user_data_bytes(u));
            lemma_framed(SI_DISCONNECT, user_data_bytes(u));
        },
        SpduModel::Abort(u) => {
            lemma_user_data_round_trip(None, u);
            assert(reason_bytes(None) + user_data_bytes(u) =~= user_data_bytes(u));
            lemma_framed(SI_ABORT, user_data_bytes(u));
        },
        SpduModel::AbortAccept => {
            assert(b.subrange(2, 2) =~= Seq::<u8>::empty());
        },
        SpduModel::DataTransfer(u) => {
            assert(b.skip(2)[1] == 0);
            assert(b.skip(2).skip(2) =~= u);
        },
        SpduModel::Other { si, body } => lemma_framed(si, body),
    }
}

} // verus!
