//! Controls: the `Oper`, `SBOw` and `Cancel` structures, and what comes back.
//!
//! ```text
//! Oper   ::= { ctlVal, [operTm], origin { orCat, orIdent }, ctlNum, T, Test, Check }
//! SBOw   ::= the same
//! Cancel ::= the same without Check
//! ```
//!
//! A negative answer to an enhanced-security control arrives later, unsolicited, as a
//! [`LastApplError`] carrying the [`AddCause`] that says why.

pub mod laws;

use vstd::prelude::*;
use vstd::slice::*;
use vstd::string::*;
use vstd::utf8::*;
use crate::ber::{opt_view, utf8_text};
use crate::common::{agrees, Error, UtcTime};
pub use crate::common::ControlModel;
use crate::proto::data::{members_of, models, scalar_of, Scalar, Typed, Value, ValueModel};

verus! {

/// Who issued a control (`orCat`).
#[derive(Clone, Copy, Debug, Default, PartialEq, Eq, Structural)]
pub enum OriginCategory {
    /// 0.
    NotSupported,
    /// 1.
    BayControl,
    /// 2.
    StationControl,
    /// 3.
    #[default]
    RemoteControl,
    /// 4.
    AutomaticBay,
    /// 5.
    AutomaticStation,
    /// 6.
    AutomaticRemote,
    /// 7.
    Maintenance,
    /// 8.
    Process,
    /// A value outside the enumeration, kept so that it encodes as it arrived.
    Other(i64),
}

/// What a wire value names.
pub open spec fn origin_category_of(code: i64) -> OriginCategory {
    match code {
        0 => OriginCategory::NotSupported,
        1 => OriginCategory::BayControl,
        2 => OriginCategory::StationControl,
        3 => OriginCategory::RemoteControl,
        4 => OriginCategory::AutomaticBay,
        5 => OriginCategory::AutomaticStation,
        6 => OriginCategory::AutomaticRemote,
        7 => OriginCategory::Maintenance,
        8 => OriginCategory::Process,
        other => OriginCategory::Other(other),
    }
}

/// The wire value of a [`OriginCategory`].
pub open spec fn origin_category_code(v: OriginCategory) -> i64 {
    match v {
        OriginCategory::NotSupported => 0,
        OriginCategory::BayControl => 1,
        OriginCategory::StationControl => 2,
        OriginCategory::RemoteControl => 3,
        OriginCategory::AutomaticBay => 4,
        OriginCategory::AutomaticStation => 5,
        OriginCategory::AutomaticRemote => 6,
        OriginCategory::Maintenance => 7,
        OriginCategory::Process => 8,
        OriginCategory::Other(v) => v,
    }
}

/// Whether a value has no name of its own where it is kept as a number.
pub open spec fn origin_category_fits(v: OriginCategory) -> bool {
    v matches OriginCategory::Other(c) ==> c < 0 || c > 8
}

/// Every code survives its [`OriginCategory`], and every [`OriginCategory`] its code.
pub proof fn lemma_origin_category_round_trip(code: i64, v: OriginCategory)
    ensures
        origin_category_code(origin_category_of(code)) == code,
        origin_category_fits(origin_category_of(code)),
        origin_category_fits(v) ==> origin_category_of(origin_category_code(v)) == v,
{
}

impl OriginCategory {
    /// From the wire value.
    pub fn from_code(code: i64) -> (r: OriginCategory)
        ensures
            r == origin_category_of(code),
    {
        match code {
            0 => OriginCategory::NotSupported,
            1 => OriginCategory::BayControl,
            2 => OriginCategory::StationControl,
            3 => OriginCategory::RemoteControl,
            4 => OriginCategory::AutomaticBay,
            5 => OriginCategory::AutomaticStation,
            6 => OriginCategory::AutomaticRemote,
            7 => OriginCategory::Maintenance,
            8 => OriginCategory::Process,
            other => OriginCategory::Other(other),
        }
    }

    /// The wire value.
    pub fn to_code(self) -> (r: i64)
        ensures
            r == origin_category_code(self),
    {
        match self {
            OriginCategory::NotSupported => 0,
            OriginCategory::BayControl => 1,
            OriginCategory::StationControl => 2,
            OriginCategory::RemoteControl => 3,
            OriginCategory::AutomaticBay => 4,
            OriginCategory::AutomaticStation => 5,
            OriginCategory::AutomaticRemote => 6,
            OriginCategory::Maintenance => 7,
            OriginCategory::Process => 8,
            OriginCategory::Other(v) => v,
        }
    }
}

/// The originator of a control: a category and an opaque identifier, which need not be text.
#[derive(Debug, PartialEq, Eq)]
pub struct Origin {
    /// Where the command came from.
    pub category: OriginCategory,
    /// `orIdent`: who, as octets.
    pub identifier: Vec<u8>,
}

/// What an [`Origin`] stands for.
pub struct OriginModel {
    pub category: OriginCategory,
    pub identifier: Seq<u8>,
}

impl View for Origin {
    type V = OriginModel;

    open spec fn view(&self) -> OriginModel {
        OriginModel { category: self.category, identifier: self.identifier@ }
    }
}

impl Default for Origin {
    fn default() -> (r: Origin)
        ensures
            r@.category == OriginCategory::RemoteControl,
            r@.identifier == Seq::<u8>::empty(),
    {
        Origin { category: OriginCategory::RemoteControl, identifier: Vec::new() }
    }
}

impl Clone for Origin {
    fn clone(&self) -> (r: Origin)
        ensures
            r@ == self@,
    {
        Origin { category: self.category, identifier: slice_to_vec(&self.identifier) }
    }
}

/// The `origin` structure.
pub open spec fn origin_value(o: OriginModel) -> ValueModel {
    ValueModel::Structure(
        seq![
            ValueModel::Integer(origin_category_code(o.category)),
            ValueModel::OctetString(o.identifier),
        ],
    )
}

/// The category a value names.
pub open spec fn category_of(v: ValueModel) -> Option<OriginCategory> {
    match v {
        ValueModel::Integer(i) => Some(origin_category_of(i)),
        ValueModel::Unsigned(u) => if u <= i64::MAX {
            Some(origin_category_of(u as i64))
        } else {
            None
        },
        _ => None,
    }
}

/// The identifier a value holds: octets, or the octets of text.
pub open spec fn identifier_of(v: ValueModel) -> Option<Seq<u8>> {
    match v {
        ValueModel::OctetString(b) => Some(b),
        ValueModel::VisibleString(s) => Some(encode_utf8(s)),
        ValueModel::MmsString(s) => Some(encode_utf8(s)),
        _ => None,
    }
}

/// The originator a value holds.
pub open spec fn origin_of(v: ValueModel) -> Option<OriginModel> {
    match members_of(v) {
        None => None,
        Some(m) => if m.len() < 2 {
            None
        } else {
            match (category_of(m[0]), identifier_of(m[1])) {
                (Some(category), Some(identifier)) => Some(OriginModel { category, identifier }),
                _ => None,
            }
        },
    }
}

/// An originator survives its structure.
pub proof fn lemma_origin_round_trip(o: OriginModel)
    requires
        origin_category_fits(o.category),
    ensures
        origin_of(origin_value(o)) == Some(o),
{
    lemma_origin_category_round_trip(0, o.category);
}

proof fn lemma_structure(v: Value, m: Seq<Value>)
    requires
        v matches Value::Structure(x) && x@ == m,
    ensures
        v@ == ValueModel::Structure(models(m)),
{
    assert(v@->Structure_0 =~= models(m));
}

impl Origin {
    /// An originator with a textual identifier.
    pub fn new(category: OriginCategory, identifier: &str) -> (r: Origin)
        ensures
            r@ == (OriginModel { category, identifier: encode_utf8(identifier@) }),
    {
        Origin { category, identifier: slice_to_vec(identifier.as_bytes()) }
    }

    /// The `origin` structure.
    pub fn to_value(&self) -> (r: Value)
        ensures
            r@ == origin_value(self@),
    {
        let mut members: Vec<Value> = Vec::new();
        members.push(Value::Integer(self.category.to_code()));
        members.push(Value::OctetString(slice_to_vec(&self.identifier)));
        let ghost m = members@;
        let r = Value::Structure(members);
        proof {
            lemma_structure(r, m);
            assert(models(m) =~= origin_value(self@)->Structure_0);
        }
        r
    }

    /// Read an `origin` structure.
    pub fn from_value(v: &Value) -> (r: Option<Origin>)
        ensures
            match r {
                Some(o) => origin_of(v@) == Some(o@),
                None => origin_of(v@) is None,
            },
    {
        let members = match v.members() {
            Some(m) => m,
            None => return None,
        };
        if members.len() < 2 {
            return None;
        }
        assert(models(members@)[0] == members@[0]@);
        assert(models(members@)[1] == members@[1]@);
        let category = match &members[0] {
            Value::Integer(i) => OriginCategory::from_code(*i),
            Value::Unsigned(u) => if *u <= 0x7FFF_FFFF_FFFF_FFFF {
                OriginCategory::from_code(*u as i64)
            } else {
                return None;
            },
            _ => return None,
        };
        let identifier: Vec<u8> = match &members[1] {
            Value::OctetString(b) => slice_to_vec(b),
            Value::VisibleString(s) => slice_to_vec(s.as_str().as_bytes()),
            Value::MmsString(s) => slice_to_vec(s.as_str().as_bytes()),
            _ => return None,
        };
        Some(Origin { category, identifier })
    }

    /// The identifier as text, when it is text.
    pub fn identifier_str(&self) -> (r: Option<&str>)
        ensures
            match r {
                Some(s) => valid_utf8(self@.identifier) && s@ == decode_utf8(self@.identifier),
                None => !valid_utf8(self@.identifier),
            },
    {
        utf8_text(&self.identifier)
    }
}

/// The `Check` field: the conditions a server may be asked to verify before it operates.
///
/// A two-bit bit string: bit 0 is the synchrocheck and bit 1 the interlock check.
#[derive(Clone, Copy, Debug, Default, PartialEq, Eq, Structural)]
pub struct Check {
    /// Verify that the two sides are in synchronism before closing.
    pub synchro: bool,
    /// Verify the interlocking conditions.
    pub interlock: bool,
}

/// The two-bit bit string of a check.
pub open spec fn check_value(c: Check) -> ValueModel {
    ValueModel::BitString {
        unused: 6,
        bytes: seq![
            ((if c.synchro {
                128int
            } else {
                0
            }) + (if c.interlock {
                64int
            } else {
                0
            })) as u8,
        ],
    }
}

/// The check a value holds: two bits, and nothing of another width.
pub open spec fn check_of(v: ValueModel) -> Option<Check> {
    match v {
        ValueModel::BitString { unused, bytes } => if unused == 6 && bytes.len() == 1 {
            Some(Check { synchro: bytes[0] >= 128, interlock: bytes[0] % 128 >= 64 })
        } else {
            None
        },
        _ => None,
    }
}

/// A check survives its bit string.
pub proof fn lemma_check_round_trip(c: Check)
    ensures
        check_of(check_value(c)) == Some(c),
{
}

impl Check {
    /// Ask for neither check.
    pub fn none() -> (r: Check)
        ensures
            r == (Check { synchro: false, interlock: false }),
    {
        Check { synchro: false, interlock: false }
    }

    /// Ask for both.
    pub fn both() -> (r: Check)
        ensures
            r == (Check { synchro: true, interlock: true }),
    {
        Check { synchro: true, interlock: true }
    }

    /// The two-bit bit string.
    pub fn to_value(self) -> (r: Value)
        ensures
            r@ == check_value(self),
    {
        let synchro: u8 = if self.synchro { 128 } else { 0 };
        let interlock: u8 = if self.interlock { 64 } else { 0 };
        let mut bytes: Vec<u8> = Vec::new();
        bytes.push(synchro + interlock);
        assert(bytes@ =~= check_value(self)->BitString_bytes);
        Value::BitString { unused: 6, bytes }
    }

    /// Read the two-bit bit string. A bit string of another width is no check.
    pub fn from_value(v: &Value) -> (r: Option<Check>)
        ensures
            r == check_of(v@),
    {
        match v {
            Value::BitString { unused, bytes } => if *unused == 6 && bytes.len() == 1 {
                let b: u8 = bytes[0];
                Some(Check { synchro: b >= 128, interlock: b % 128 >= 64 })
            } else {
                None
            },
            _ => None,
        }
    }
}

/// An `Oper`, `SBOw` or `Cancel` structure.
#[derive(Debug, PartialEq)]
pub struct ControlRequest {
    /// `ctlVal`: the value to write.
    pub ctl_val: Value,
    /// `operTm`: operate at this time instead of now. Its presence changes the structure.
    pub oper_tm: Option<UtcTime>,
    /// `origin`: who is asking.
    pub origin: Origin,
    /// `ctlNum`: the number that ties the requests of one control sequence together.
    pub ctl_num: u8,
    /// `T`: when the client issued this.
    pub t: UtcTime,
    /// `Test`: this is a test command.
    pub test: bool,
    /// `Check`: omitted from a `Cancel`.
    pub check: Check,
}

/// What a [`ControlRequest`] stands for.
pub struct ControlRequestModel {
    pub ctl_val: ValueModel,
    pub oper_tm: Option<UtcTime>,
    pub origin: OriginModel,
    pub ctl_num: u8,
    pub t: UtcTime,
    pub test: bool,
    pub check: Check,
}

impl View for ControlRequest {
    type V = ControlRequestModel;

    open spec fn view(&self) -> ControlRequestModel {
        ControlRequestModel {
            ctl_val: self.ctl_val@,
            oper_tm: self.oper_tm,
            origin: self.origin@,
            ctl_num: self.ctl_num,
            t: self.t,
            test: self.test,
            check: self.check,
        }
    }
}

impl Clone for ControlRequest {
    fn clone(&self) -> (r: ControlRequest)
        ensures
            r@ == self@,
    {
        ControlRequest {
            ctl_val: self.ctl_val.duplicate(),
            oper_tm: self.oper_tm,
            origin: self.origin.clone(),
            ctl_num: self.ctl_num,
            t: self.t,
            test: self.test,
            check: self.check,
        }
    }
}

/// The members of a `Cancel`: all but the check.
pub open spec fn cancel_members(m: ControlRequestModel) -> Seq<ValueModel> {
    let rest = seq![
        origin_value(m.origin),
        ValueModel::Unsigned(m.ctl_num as u64),
        ValueModel::UtcTime(m.t),
        ValueModel::Boolean(m.test),
    ];
    match m.oper_tm {
        Some(tm) => seq![m.ctl_val, ValueModel::UtcTime(tm)] + rest,
        None => seq![m.ctl_val] + rest,
    }
}

/// The `Oper` and `SBOw` structure.
pub open spec fn request_value(m: ControlRequestModel) -> ValueModel {
    ValueModel::Structure(cancel_members(m).push(check_value(m.check)))
}

/// The `Cancel` structure.
pub open spec fn cancel_value(m: ControlRequestModel) -> ValueModel {
    ValueModel::Structure(cancel_members(m))
}

/// The error for a structure that is no control request.
pub open spec fn bad_request<T>() -> Result<T, Error> {
    Err(Error::InvalidValue("control request structure"))
}

/// What follows the control number: the time, the test flag, and the check where there is one.
pub open spec fn control_tail(m: Seq<ValueModel>, at: nat) -> Result<
    (UtcTime, bool, Check),
    Error,
> {
    if at + 1 >= m.len() {
        bad_request()
    } else {
        match (scalar_of(m[at as int]), scalar_of(m[at + 1int])) {
            (Scalar::Time(t), Scalar::Boolean(test)) => if at + 2 < m.len() {
                match check_of(m[at + 2int]) {
                    Some(check) => Ok((t, test, check)),
                    None => bad_request(),
                }
            } else {
                Ok((t, test, Check { synchro: false, interlock: false }))
            },
            _ => bad_request(),
        }
    }
}

/// The control number at a position and where it ends: a `UtcTime` there means there is none.
pub open spec fn control_number(m: Seq<ValueModel>, at: nat) -> Result<(u8, nat), Error> {
    if at >= m.len() || m[at as int] is UtcTime {
        Ok((0, at))
    } else {
        match scalar_of(m[at as int]) {
            Scalar::Unsigned(n) => if n <= 255 {
                Ok((n as u8, at + 1))
            } else {
                bad_request()
            },
            _ => bad_request(),
        }
    }
}

/// The control request a value holds. `operTm` and `ctlNum` are told from what follows them by
/// their types, and `Check` by whether it is there.
pub open spec fn control_of(v: ValueModel) -> Result<ControlRequestModel, Error> {
    match members_of(v) {
        None => Err(Error::InvalidValue("a control request is a structure")),
        Some(m) => if m.len() == 0 {
            bad_request()
        } else {
            let timed = m.len() > 1 && m[1] is UtcTime;
            let at: nat = if timed {
                2
            } else {
                1
            };
            if at >= m.len() {
                bad_request()
            } else {
                match origin_of(m[at as int]) {
                    None => bad_request(),
                    Some(origin) => match control_number(m, at + 1) {
                        Err(e) => Err(e),
                        Ok((ctl_num, at)) => match control_tail(m, at) {
                            Err(e) => Err(e),
                            Ok((t, test, check)) => Ok(
                                ControlRequestModel {
                                    ctl_val: m[0],
                                    oper_tm: if timed {
                                        Some(m[1]->UtcTime_0)
                                    } else {
                                        None
                                    },
                                    origin,
                                    ctl_num,
                                    t,
                                    test,
                                    check,
                                },
                            ),
                        },
                    },
                }
            }
        },
    }
}

fn bad() -> (r: Error)
    ensures
        r == Error::InvalidValue("control request structure"),
{
    Error::InvalidValue("control request structure")
}

fn read_number(members: &[Value], at: usize) -> (r: Result<(u8, usize), Error>)
    requires
        at <= members.len(),
    ensures
        match r {
            Ok((n, i)) => i <= members.len() && control_number(models(members@), at as nat) == Ok::<
                (u8, nat),
                Error,
            >((n, i as nat)),
            Err(e) => control_number(models(members@), at as nat) == Err::<(u8, nat), Error>(e),
        },
{
    if at >= members.len() {
        return Ok((0, at));
    }
    assert(models(members@)[at as int] == members@[at as int]@);
    match &members[at] {
        Value::UtcTime(_) => Ok((0, at)),
        v => match v.as_u64() {
            Some(n) => if n <= 255 {
                Ok((n as u8, at + 1))
            } else {
                Err(bad())
            },
            None => Err(bad()),
        },
    }
}

fn read_tail(members: &[Value], at: usize) -> (r: Result<(UtcTime, bool, Check), Error>)
    requires
        at <= members.len(),
    ensures
        r == control_tail(models(members@), at as nat),
{
    if members.len() - at < 2 {
        return Err(bad());
    }
    assert(models(members@)[at as int] == members@[at as int]@);
    assert(models(members@)[at + 1] == members@[at + 1]@);
    let t = match members[at].as_utc_time() {
        Some(t) => t,
        None => return Err(bad()),
    };
    let test = match members[at + 1].as_bool() {
        Some(b) => b,
        None => return Err(bad()),
    };
    if members.len() - at > 2 {
        assert(models(members@)[at + 2] == members@[at + 2]@);
        match Check::from_value(&members[at + 2]) {
            Some(check) => Ok((t, test, check)),
            None => Err(bad()),
        }
    } else {
        Ok((t, test, Check::none()))
    }
}

impl ControlRequest {
    /// A request with the usual defaults: remote control, no checks, not a test.
    pub fn new(ctl_val: Value, ctl_num: u8, t: UtcTime) -> (r: ControlRequest)
        ensures
            r@ == (ControlRequestModel {
                ctl_val: ctl_val@,
                oper_tm: None,
                origin: OriginModel {
                    category: OriginCategory::RemoteControl,
                    identifier: Seq::empty(),
                },
                ctl_num,
                t,
                test: false,
                check: Check { synchro: false, interlock: false },
            }),
    {
        ControlRequest {
            ctl_val,
            oper_tm: None,
            origin: Default::default(),
            ctl_num,
            t,
            test: false,
            check: Check::none(),
        }
    }

    fn cancel_list(&self) -> (r: Vec<Value>)
        ensures
            models(r@) == cancel_members(self@),
    {
        let mut members: Vec<Value> = Vec::new();
        members.push(self.ctl_val.duplicate());
        if let Some(tm) = self.oper_tm {
            members.push(Value::UtcTime(tm));
        }
        members.push(self.origin.to_value());
        members.push(Value::Unsigned(self.ctl_num as u64));
        members.push(Value::UtcTime(self.t));
        members.push(Value::Boolean(self.test));
        assert(models(members@) =~= cancel_members(self@));
        members
    }

    /// The `Oper` / `SBOw` structure.
    pub fn to_value(&self) -> (r: Value)
        ensures
            r@ == request_value(self@),
    {
        let mut members = self.cancel_list();
        let ghost front = models(members@);
        members.push(self.check.to_value());
        assert(models(members@) =~= front.push(check_value(self.check)));
        let ghost m = members@;
        let r = Value::Structure(members);
        proof {
            lemma_structure(r, m);
        }
        r
    }

    /// The `Cancel` structure: the same without `Check`.
    pub fn to_cancel_value(&self) -> (r: Value)
        ensures
            r@ == cancel_value(self@),
    {
        let members = self.cancel_list();
        let ghost m = members@;
        let r = Value::Structure(members);
        proof {
            lemma_structure(r, m);
        }
        r
    }

    /// Read an `Oper`, `SBOw` or `Cancel` structure.
    pub fn from_value(v: &Value) -> (r: Result<ControlRequest, Error>)
        ensures
            agrees(r, control_of(v@)),
    {
        let members = match v.members() {
            Some(m) => m,
            None => return Err(Error::InvalidValue("a control request is a structure")),
        };
        if members.len() == 0 {
            return Err(bad());
        }
        let ghost m = models(members@);
        assert(m[0] == members@[0]@);
        let ctl_val = members[0].duplicate();
        let mut at: usize = 1;
        let mut oper_tm: Option<UtcTime> = None;
        if members.len() > 1 {
            assert(m[1] == members@[1]@);
            if let Value::UtcTime(t) = &members[1] {
                oper_tm = Some(*t);
                at = 2;
            }
        }
        if at >= members.len() {
            return Err(bad());
        }
        assert(m[at as int] == members@[at as int]@);
        let origin = match Origin::from_value(&members[at]) {
            Some(o) => o,
            None => return Err(bad()),
        };
        let (ctl_num, at) = read_number(members, at + 1)?;
        let (t, test, check) = read_tail(members, at)?;
        Ok(ControlRequest { ctl_val, oper_tm, origin, ctl_num, t, test, check })
    }
}

/// An `Oper` reads back as it was, with and without `operTm`.
pub proof fn lemma_oper_round_trip(m: ControlRequestModel)
    requires
        origin_category_fits(m.origin.category),
    ensures
        control_of(request_value(m)) == Ok::<ControlRequestModel, Error>(m),
{
    lemma_origin_round_trip(m.origin);
    lemma_check_round_trip(m.check);
}

/// Encoding a control is a fixed point: whatever decodes encodes to an `Oper` that decodes to
/// the same.
pub proof fn lemma_control_fixed_point(v: ValueModel)
    ensures
        control_of(v) matches Ok(m) ==> control_of(request_value(m)) == Ok::<
            ControlRequestModel,
            Error,
        >(m),
{
    if let Ok(m) = control_of(v) {
        lemma_oper_round_trip(m);
    }
}

/// A `Cancel` reads back as the request it cancels, asking for no checks.
pub proof fn lemma_cancel_round_trip(m: ControlRequestModel)
    requires
        origin_category_fits(m.origin.category),
    ensures
        control_of(cancel_value(m)) == Ok::<ControlRequestModel, Error>(
            ControlRequestModel { check: Check { synchro: false, interlock: false }, ..m },
        ),
{
    lemma_origin_round_trip(m.origin);
}

/// The `error` component of [`LastApplError`].
#[derive(Clone, Copy, Debug, Default, PartialEq, Eq, Structural)]
pub enum ControlError {
    /// 0.
    #[default]
    NoError,
    /// 1.
    Unknown,
    /// 2.
    TimeoutTestNotOk,
    /// 3.
    OperatorTestNotOk,
    /// A value outside the enumeration, kept so that it encodes as it arrived.
    Other(i64),
}

/// What a wire value names.
pub open spec fn control_error_of(code: i64) -> ControlError {
    match code {
        0 => ControlError::NoError,
        1 => ControlError::Unknown,
        2 => ControlError::TimeoutTestNotOk,
        3 => ControlError::OperatorTestNotOk,
        other => ControlError::Other(other),
    }
}

/// The wire value of a [`ControlError`].
pub open spec fn control_error_code(v: ControlError) -> i64 {
    match v {
        ControlError::NoError => 0,
        ControlError::Unknown => 1,
        ControlError::TimeoutTestNotOk => 2,
        ControlError::OperatorTestNotOk => 3,
        ControlError::Other(v) => v,
    }
}

/// Whether a value has no name of its own where it is kept as a number.
pub open spec fn control_error_fits(v: ControlError) -> bool {
    v matches ControlError::Other(c) ==> c < 0 || c > 3
}

/// Every code survives its [`ControlError`], and every [`ControlError`] its code.
pub proof fn lemma_control_error_round_trip(code: i64, v: ControlError)
    ensures
        control_error_code(control_error_of(code)) == code,
        control_error_fits(control_error_of(code)),
        control_error_fits(v) ==> control_error_of(control_error_code(v)) == v,
{
}

impl ControlError {
    /// From the wire value.
    pub fn from_code(code: i64) -> (r: ControlError)
        ensures
            r == control_error_of(code),
    {
        match code {
            0 => ControlError::NoError,
            1 => ControlError::Unknown,
            2 => ControlError::TimeoutTestNotOk,
            3 => ControlError::OperatorTestNotOk,
            other => ControlError::Other(other),
        }
    }

    /// The wire value.
    pub fn to_code(self) -> (r: i64)
        ensures
            r == control_error_code(self),
    {
        match self {
            ControlError::NoError => 0,
            ControlError::Unknown => 1,
            ControlError::TimeoutTestNotOk => 2,
            ControlError::OperatorTestNotOk => 3,
            ControlError::Other(v) => v,
        }
    }
}

/// Why a control was refused or abandoned.
#[derive(Clone, Copy, Debug, Default, PartialEq, Eq, Structural)]
pub enum AddCause {
    /// 0.
    #[default]
    Unknown,
    /// 1.
    NotSupported,
    /// 2.
    BlockedBySwitchingHierarchy,
    /// 3.
    SelectFailed,
    /// 4.
    InvalidPosition,
    /// 5.
    PositionReached,
    /// 6.
    ParameterChangeInExecution,
    /// 7.
    StepLimit,
    /// 8.
    BlockedByMode,
    /// 9.
    BlockedByProcess,
    /// 10.
    BlockedByInterlocking,
    /// 11.
    BlockedBySynchrocheck,
    /// 12.
    CommandAlreadyInExecution,
    /// 13.
    BlockedByHealth,
    /// 14.
    OneOfNControl,
    /// 15.
    AbortionByCancel,
    /// 16.
    TimeLimitOver,
    /// 17.
    AbortionByTrip,
    /// 18.
    ObjectNotSelected,
    /// 19.
    ObjectAlreadySelected,
    /// 20.
    NoAccessAuthority,
    /// 21.
    EndedWithOvershoot,
    /// 22.
    AbortionDueToDeviation,
    /// 23.
    AbortionByCommunicationLoss,
    /// 24.
    AbortionByCommand,
    /// 25: no cause to report.
    NoCause,
    /// 26.
    InconsistentParameters,
    /// 27.
    LockedByOtherClient,
    /// A value outside the enumeration, kept so that it encodes as it arrived.
    Other(i64),
}

/// What a wire value names.
pub open spec fn add_cause_of(code: i64) -> AddCause {
    match code {
        0 => AddCause::Unknown,
        1 => AddCause::NotSupported,
        2 => AddCause::BlockedBySwitchingHierarchy,
        3 => AddCause::SelectFailed,
        4 => AddCause::InvalidPosition,
        5 => AddCause::PositionReached,
        6 => AddCause::ParameterChangeInExecution,
        7 => AddCause::StepLimit,
        8 => AddCause::BlockedByMode,
        9 => AddCause::BlockedByProcess,
        10 => AddCause::BlockedByInterlocking,
        11 => AddCause::BlockedBySynchrocheck,
        12 => AddCause::CommandAlreadyInExecution,
        13 => AddCause::BlockedByHealth,
        14 => AddCause::OneOfNControl,
        15 => AddCause::AbortionByCancel,
        16 => AddCause::TimeLimitOver,
        17 => AddCause::AbortionByTrip,
        18 => AddCause::ObjectNotSelected,
        19 => AddCause::ObjectAlreadySelected,
        20 => AddCause::NoAccessAuthority,
        21 => AddCause::EndedWithOvershoot,
        22 => AddCause::AbortionDueToDeviation,
        23 => AddCause::AbortionByCommunicationLoss,
        24 => AddCause::AbortionByCommand,
        25 => AddCause::NoCause,
        26 => AddCause::InconsistentParameters,
        27 => AddCause::LockedByOtherClient,
        other => AddCause::Other(other),
    }
}

/// The wire value of a [`AddCause`].
pub open spec fn add_cause_code(v: AddCause) -> i64 {
    match v {
        AddCause::Unknown => 0,
        AddCause::NotSupported => 1,
        AddCause::BlockedBySwitchingHierarchy => 2,
        AddCause::SelectFailed => 3,
        AddCause::InvalidPosition => 4,
        AddCause::PositionReached => 5,
        AddCause::ParameterChangeInExecution => 6,
        AddCause::StepLimit => 7,
        AddCause::BlockedByMode => 8,
        AddCause::BlockedByProcess => 9,
        AddCause::BlockedByInterlocking => 10,
        AddCause::BlockedBySynchrocheck => 11,
        AddCause::CommandAlreadyInExecution => 12,
        AddCause::BlockedByHealth => 13,
        AddCause::OneOfNControl => 14,
        AddCause::AbortionByCancel => 15,
        AddCause::TimeLimitOver => 16,
        AddCause::AbortionByTrip => 17,
        AddCause::ObjectNotSelected => 18,
        AddCause::ObjectAlreadySelected => 19,
        AddCause::NoAccessAuthority => 20,
        AddCause::EndedWithOvershoot => 21,
        AddCause::AbortionDueToDeviation => 22,
        AddCause::AbortionByCommunicationLoss => 23,
        AddCause::AbortionByCommand => 24,
        AddCause::NoCause => 25,
        AddCause::InconsistentParameters => 26,
        AddCause::LockedByOtherClient => 27,
        AddCause::Other(v) => v,
    }
}

/// Whether a value has no name of its own where it is kept as a number.
pub open spec fn add_cause_fits(v: AddCause) -> bool {
    v matches AddCause::Other(c) ==> c < 0 || c > 27
}

/// Every code survives its [`AddCause`], and every [`AddCause`] its code.
pub proof fn lemma_add_cause_round_trip(code: i64, v: AddCause)
    ensures
        add_cause_code(add_cause_of(code)) == code,
        add_cause_fits(add_cause_of(code)),
        add_cause_fits(v) ==> add_cause_of(add_cause_code(v)) == v,
{
}

impl AddCause {
    /// From the wire value.
    pub fn from_code(code: i64) -> (r: AddCause)
        ensures
            r == add_cause_of(code),
    {
        match code {
            0 => AddCause::Unknown,
            1 => AddCause::NotSupported,
            2 => AddCause::BlockedBySwitchingHierarchy,
            3 => AddCause::SelectFailed,
            4 => AddCause::InvalidPosition,
            5 => AddCause::PositionReached,
            6 => AddCause::ParameterChangeInExecution,
            7 => AddCause::StepLimit,
            8 => AddCause::BlockedByMode,
            9 => AddCause::BlockedByProcess,
            10 => AddCause::BlockedByInterlocking,
            11 => AddCause::BlockedBySynchrocheck,
            12 => AddCause::CommandAlreadyInExecution,
            13 => AddCause::BlockedByHealth,
            14 => AddCause::OneOfNControl,
            15 => AddCause::AbortionByCancel,
            16 => AddCause::TimeLimitOver,
            17 => AddCause::AbortionByTrip,
            18 => AddCause::ObjectNotSelected,
            19 => AddCause::ObjectAlreadySelected,
            20 => AddCause::NoAccessAuthority,
            21 => AddCause::EndedWithOvershoot,
            22 => AddCause::AbortionDueToDeviation,
            23 => AddCause::AbortionByCommunicationLoss,
            24 => AddCause::AbortionByCommand,
            25 => AddCause::NoCause,
            26 => AddCause::InconsistentParameters,
            27 => AddCause::LockedByOtherClient,
            other => AddCause::Other(other),
        }
    }

    /// The wire value.
    pub fn to_code(self) -> (r: i64)
        ensures
            r == add_cause_code(self),
    {
        match self {
            AddCause::Unknown => 0,
            AddCause::NotSupported => 1,
            AddCause::BlockedBySwitchingHierarchy => 2,
            AddCause::SelectFailed => 3,
            AddCause::InvalidPosition => 4,
            AddCause::PositionReached => 5,
            AddCause::ParameterChangeInExecution => 6,
            AddCause::StepLimit => 7,
            AddCause::BlockedByMode => 8,
            AddCause::BlockedByProcess => 9,
            AddCause::BlockedByInterlocking => 10,
            AddCause::BlockedBySynchrocheck => 11,
            AddCause::CommandAlreadyInExecution => 12,
            AddCause::BlockedByHealth => 13,
            AddCause::OneOfNControl => 14,
            AddCause::AbortionByCancel => 15,
            AddCause::TimeLimitOver => 16,
            AddCause::AbortionByTrip => 17,
            AddCause::ObjectNotSelected => 18,
            AddCause::ObjectAlreadySelected => 19,
            AddCause::NoAccessAuthority => 20,
            AddCause::EndedWithOvershoot => 21,
            AddCause::AbortionDueToDeviation => 22,
            AddCause::AbortionByCommunicationLoss => 23,
            AddCause::AbortionByCommand => 24,
            AddCause::NoCause => 25,
            AddCause::InconsistentParameters => 26,
            AddCause::LockedByOtherClient => 27,
            AddCause::Other(v) => v,
        }
    }
}

/// Why a control failed: a structure of five components, sent unsolicited beside the `Oper`
/// value of a negative termination.
#[derive(Debug, PartialEq, Eq)]
pub struct LastApplError {
    /// `cntrlObj`: the control object.
    pub control_object: String,
    /// `error`.
    pub error: ControlError,
    /// `origin`: echoed from the request.
    pub origin: Origin,
    /// `ctlNum`: echoed from the request, which ties it to a command.
    pub ctl_num: u8,
    /// `addCause`: the diagnosis.
    pub add_cause: AddCause,
}

/// What a [`LastApplError`] stands for.
pub struct LastApplErrorModel {
    pub control_object: Seq<char>,
    pub error: ControlError,
    pub origin: OriginModel,
    pub ctl_num: u8,
    pub add_cause: AddCause,
}

impl View for LastApplError {
    type V = LastApplErrorModel;

    open spec fn view(&self) -> LastApplErrorModel {
        LastApplErrorModel {
            control_object: self.control_object@,
            error: self.error,
            origin: self.origin@,
            ctl_num: self.ctl_num,
            add_cause: self.add_cause,
        }
    }
}

impl Default for LastApplError {
    fn default() -> (r: LastApplError)
        ensures
            r@ == (LastApplErrorModel {
                control_object: Seq::empty(),
                error: ControlError::NoError,
                origin: OriginModel {
                    category: OriginCategory::RemoteControl,
                    identifier: Seq::empty(),
                },
                ctl_num: 0,
                add_cause: AddCause::Unknown,
            }),
    {
        LastApplError {
            control_object: String::new(),
            error: ControlError::NoError,
            origin: Default::default(),
            ctl_num: 0,
            add_cause: AddCause::Unknown,
        }
    }
}

impl Clone for LastApplError {
    fn clone(&self) -> (r: LastApplError)
        ensures
            r@ == self@,
    {
        LastApplError {
            control_object: self.control_object.clone(),
            error: self.error,
            origin: self.origin.clone(),
            ctl_num: self.ctl_num,
            add_cause: self.add_cause,
        }
    }
}

/// The structure of a [`LastApplError`].
pub open spec fn appl_error_value(m: LastApplErrorModel) -> ValueModel {
    ValueModel::Structure(
        seq![
            ValueModel::VisibleString(m.control_object),
            ValueModel::Integer(control_error_code(m.error)),
            origin_value(m.origin),
            ValueModel::Unsigned(m.ctl_num as u64),
            ValueModel::Integer(add_cause_code(m.add_cause)),
        ],
    )
}

/// The error a value holds; members after the fifth are ignored.
pub open spec fn appl_error_of(v: ValueModel) -> Result<LastApplErrorModel, Error> {
    match members_of(v) {
        None => Err(Error::InvalidValue("LastApplError is a structure")),
        Some(m) => if m.len() < 5 {
            Err(Error::InvalidValue("LastApplError structure"))
        } else {
            match (
                scalar_of(m[0]),
                scalar_of(m[1]),
                origin_of(m[2]),
                scalar_of(m[3]),
                scalar_of(m[4]),
            ) {
                (
                    Scalar::Text(control_object),
                    Scalar::Integer(error),
                    Some(origin),
                    Scalar::Unsigned(n),
                    Scalar::Integer(cause),
                ) => if n <= 255 {
                    Ok(
                        LastApplErrorModel {
                            control_object,
                            error: control_error_of(error),
                            origin,
                            ctl_num: n as u8,
                            add_cause: add_cause_of(cause),
                        },
                    )
                } else {
                    Err(Error::InvalidValue("LastApplError structure"))
                },
                _ => Err(Error::InvalidValue("LastApplError structure")),
            }
        },
    }
}

impl LastApplError {
    /// Read the five-component structure.
    pub fn from_value(v: &Value) -> (r: Result<LastApplError, Error>)
        ensures
            agrees(r, appl_error_of(v@)),
    {
        let m = match v.members() {
            Some(m) => m,
            None => return Err(Error::InvalidValue("LastApplError is a structure")),
        };
        if m.len() < 5 {
            return Err(Error::InvalidValue("LastApplError structure"));
        }
        proof {
            let s = models(m@);
            assert(s[0] == m@[0]@ && s[1] == m@[1]@ && s[2] == m@[2]@ && s[3] == m@[3]@ && s[4]
                == m@[4]@);
        }
        let control_object = match m[0].as_str() {
            Some(s) => s.to_owned(),
            None => return Err(Error::InvalidValue("LastApplError structure")),
        };
        let error: i64 = match m[1].as_i64() {
            Some(i) => i,
            None => return Err(Error::InvalidValue("LastApplError structure")),
        };
        let origin = match Origin::from_value(&m[2]) {
            Some(o) => o,
            None => return Err(Error::InvalidValue("LastApplError structure")),
        };
        let number: u64 = match m[3].as_u64() {
            Some(n) => n,
            None => return Err(Error::InvalidValue("LastApplError structure")),
        };
        let cause: i64 = match m[4].as_i64() {
            Some(i) => i,
            None => return Err(Error::InvalidValue("LastApplError structure")),
        };
        if number > 255 {
            return Err(Error::InvalidValue("LastApplError structure"));
        }
        Ok(
            LastApplError {
                control_object,
                error: ControlError::from_code(error),
                origin,
                ctl_num: number as u8,
                add_cause: AddCause::from_code(cause),
            },
        )
    }

    /// The five-component structure.
    pub fn to_value(&self) -> (r: Value)
        ensures
            r@ == appl_error_value(self@),
    {
        let mut members: Vec<Value> = Vec::new();
        members.push(Value::VisibleString(self.control_object.clone()));
        members.push(Value::Integer(self.error.to_code()));
        members.push(self.origin.to_value());
        members.push(Value::Unsigned(self.ctl_num as u64));
        members.push(Value::Integer(self.add_cause.to_code()));
        let ghost m = members@;
        let r = Value::Structure(members);
        proof {
            lemma_structure(r, m);
            assert(models(m) =~= appl_error_value(self@)->Structure_0);
        }
        r
    }
}

/// A [`LastApplError`] survives its structure.
pub proof fn lemma_appl_error_round_trip(m: LastApplErrorModel)
    requires
        origin_category_fits(m.origin.category),
        control_error_fits(m.error),
        add_cause_fits(m.add_cause),
    ensures
        appl_error_of(appl_error_value(m)) == Ok::<LastApplErrorModel, Error>(m),
{
    lemma_origin_round_trip(m.origin);
    lemma_control_error_round_trip(0, m.error);
    lemma_add_cause_round_trip(0, m.add_cause);
}

/// Encoding a [`LastApplError`] is a fixed point: whatever decodes encodes to a structure that
/// decodes to the same.
pub proof fn lemma_appl_error_fixed_point(v: ValueModel)
    ensures
        appl_error_of(v) matches Ok(m) ==> appl_error_of(appl_error_value(m)) == Ok::<
            LastApplErrorModel,
            Error,
        >(m),
{
    if let Ok(m) = appl_error_of(v) {
        lemma_appl_error_round_trip(m);
    }
}

/// The final answer to an enhanced-security control, which arrives unsolicited.
#[derive(Debug, PartialEq)]
pub enum CommandTermination {
    /// The command completed.
    Positive {
        /// The control object.
        control_object: String,
        /// The `Oper` structure the server echoed back.
        request: ControlRequest,
    },
    /// The command failed or was abandoned.
    Negative {
        /// Why.
        error: LastApplError,
        /// The `Oper` structure the server echoed back, if it sent one.
        request: Option<ControlRequest>,
    },
}

/// What a [`CommandTermination`] stands for.
pub enum CommandTerminationModel {
    Positive { control_object: Seq<char>, request: ControlRequestModel },
    Negative { error: LastApplErrorModel, request: Option<ControlRequestModel> },
}

impl View for CommandTermination {
    type V = CommandTerminationModel;

    open spec fn view(&self) -> CommandTerminationModel {
        match *self {
            CommandTermination::Positive { control_object, request } => {
                CommandTerminationModel::Positive {
                    control_object: control_object@,
                    request: request@,
                }
            },
            CommandTermination::Negative { error, request } => CommandTerminationModel::Negative {
                error: error@,
                request: opt_view(request),
            },
        }
    }
}

/// The `ctlNum` a termination belongs to.
pub open spec fn ended_number(m: CommandTerminationModel) -> u8 {
    match m {
        CommandTerminationModel::Positive { request, .. } => request.ctl_num,
        CommandTerminationModel::Negative { error, .. } => error.ctl_num,
    }
}

/// The control object a termination is about.
pub open spec fn ended_object(m: CommandTerminationModel) -> Seq<char> {
    match m {
        CommandTerminationModel::Positive { control_object, .. } => control_object,
        CommandTerminationModel::Negative { error, .. } => error.control_object,
    }
}

/// Why a command failed, if it did.
pub open spec fn ended_cause(m: CommandTerminationModel) -> Option<AddCause> {
    match m {
        CommandTerminationModel::Positive { .. } => None,
        CommandTerminationModel::Negative { error, .. } => Some(error.add_cause),
    }
}

impl Clone for CommandTermination {
    fn clone(&self) -> (r: CommandTermination)
        ensures
            r@ == self@,
    {
        match self {
            CommandTermination::Positive { control_object, request } => {
                CommandTermination::Positive {
                    control_object: control_object.clone(),
                    request: request.clone(),
                }
            },
            CommandTermination::Negative { error, request } => CommandTermination::Negative {
                error: error.clone(),
                request: match request {
                    Some(q) => Some(q.clone()),
                    None => None,
                },
            },
        }
    }
}

impl CommandTermination {
    /// The `ctlNum` this termination belongs to.
    pub fn ctl_num(&self) -> (r: u8)
        ensures
            r == ended_number(self@),
            r == (match *self {
                CommandTermination::Positive { request, .. } => request@.ctl_num,
                CommandTermination::Negative { error, .. } => error@.ctl_num,
            }),
    {
        match self {
            CommandTermination::Positive { request, .. } => request.ctl_num,
            CommandTermination::Negative { error, .. } => error.ctl_num,
        }
    }

    /// The control object this termination is about.
    pub fn control_object(&self) -> (r: &str)
        ensures
            r@ == ended_object(self@),
            r@ == (match *self {
                CommandTermination::Positive { control_object, .. } => control_object@,
                CommandTermination::Negative { error, .. } => error@.control_object,
            }),
    {
        match self {
            CommandTermination::Positive { control_object, .. } => control_object.as_str(),
            CommandTermination::Negative { error, .. } => error.control_object.as_str(),
        }
    }

    /// True when the command succeeded.
    pub fn is_positive(&self) -> (r: bool)
        ensures
            r == (*self is Positive),
    {
        matches!(self, CommandTermination::Positive { .. })
    }

    /// Why the command failed, for a negative termination.
    pub fn add_cause(&self) -> (r: Option<AddCause>)
        ensures
            r == ended_cause(self@),
            r == (match *self {
                CommandTermination::Negative { error, .. } => Some(error@.add_cause),
                CommandTermination::Positive { .. } => None,
            }),
    {
        match self {
            CommandTermination::Negative { error, .. } => Some(error.add_cause),
            CommandTermination::Positive { .. } => None,
        }
    }
}

} // verus!
