//! The structures of a control, member by member, and the names of their codes.

use vstd::prelude::*;
use vstd::utf8::*;
use crate::common::{Error, UtcTime};
use crate::proto::data::ValueModel;
use crate::proto::mms::control::{
    add_cause_code, add_cause_of, appl_error_of, appl_error_value, cancel_value, check_of,
    check_value, control_error_code, control_error_of, control_of, ended_cause, ended_number,
    ended_object, origin_category_code, origin_category_of, origin_of, origin_value, request_value,
    AddCause, Check, CommandTerminationModel, ControlError, ControlRequestModel, LastApplErrorModel,
    OriginCategory, OriginModel,
};

verus! {

/// Every code of `orCat` names its category, and every other code is kept.
pub proof fn lemma_category_names(code: i64)
    ensures
        origin_category_of(0) == OriginCategory::NotSupported,
        origin_category_of(1) == OriginCategory::BayControl,
        origin_category_of(2) == OriginCategory::StationControl,
        origin_category_of(3) == OriginCategory::RemoteControl,
        origin_category_of(4) == OriginCategory::AutomaticBay,
        origin_category_of(5) == OriginCategory::AutomaticStation,
        origin_category_of(6) == OriginCategory::AutomaticRemote,
        origin_category_of(7) == OriginCategory::Maintenance,
        origin_category_of(8) == OriginCategory::Process,
        code < 0 || code > 8 ==> origin_category_of(code) == OriginCategory::Other(code),
        origin_category_code(OriginCategory::Other(code)) == code,
        origin_category_code(origin_category_of(code)) == code,
{
}

/// Every code of `error` names its error, and every other code is kept.
pub proof fn lemma_error_names(code: i64)
    ensures
        control_error_of(0) == ControlError::NoError,
        control_error_of(1) == ControlError::Unknown,
        control_error_of(2) == ControlError::TimeoutTestNotOk,
        control_error_of(3) == ControlError::OperatorTestNotOk,
        code < 0 || code > 3 ==> control_error_of(code) == ControlError::Other(code),
        control_error_code(ControlError::Other(code)) == code,
        control_error_code(control_error_of(code)) == code,
{
}

/// Every code of `addCause` names its cause, and every other code is kept.
pub proof fn lemma_cause_names(code: i64)
    ensures
        add_cause_of(0) == AddCause::Unknown,
        add_cause_of(1) == AddCause::NotSupported,
        add_cause_of(2) == AddCause::BlockedBySwitchingHierarchy,
        add_cause_of(3) == AddCause::SelectFailed,
        add_cause_of(4) == AddCause::InvalidPosition,
        add_cause_of(5) == AddCause::PositionReached,
        add_cause_of(6) == AddCause::ParameterChangeInExecution,
        add_cause_of(7) == AddCause::StepLimit,
        add_cause_of(8) == AddCause::BlockedByMode,
        add_cause_of(9) == AddCause::BlockedByProcess,
        add_cause_of(10) == AddCause::BlockedByInterlocking,
        add_cause_of(11) == AddCause::BlockedBySynchrocheck,
        add_cause_of(12) == AddCause::CommandAlreadyInExecution,
        add_cause_of(13) == AddCause::BlockedByHealth,
        add_cause_of(14) == AddCause::OneOfNControl,
        add_cause_of(15) == AddCause::AbortionByCancel,
        add_cause_of(16) == AddCause::TimeLimitOver,
        add_cause_of(17) == AddCause::AbortionByTrip,
        add_cause_of(18) == AddCause::ObjectNotSelected,
        add_cause_of(19) == AddCause::ObjectAlreadySelected,
        add_cause_of(20) == AddCause::NoAccessAuthority,
        add_cause_of(21) == AddCause::EndedWithOvershoot,
        add_cause_of(22) == AddCause::AbortionDueToDeviation,
        add_cause_of(23) == AddCause::AbortionByCommunicationLoss,
        add_cause_of(24) == AddCause::AbortionByCommand,
        add_cause_of(25) == AddCause::NoCause,
        add_cause_of(26) == AddCause::InconsistentParameters,
        add_cause_of(27) == AddCause::LockedByOtherClient,
        code < 0 || code > 27 ==> add_cause_of(code) == AddCause::Other(code),
        add_cause_code(AddCause::Other(code)) == code,
        add_cause_code(add_cause_of(code)) == code,
{
}

/// An originator is a structure of its category and its identifier, in this order. The identifier
/// may also be text, which stands for its octets.
pub proof fn lemma_origin_members(category: i64, identifier: Seq<u8>, text: Seq<char>)
    ensures
        origin_of(
            ValueModel::Structure(
                seq![ValueModel::Integer(category), ValueModel::OctetString(identifier)],
            ),
        ) == Some(OriginModel { category: origin_category_of(category), identifier }),
        origin_of(
            ValueModel::Structure(
                seq![ValueModel::Integer(category), ValueModel::VisibleString(text)],
            ),
        ) == Some(
            OriginModel {
                category: origin_category_of(category),
                identifier: encode_utf8(text),
            },
        ),
        origin_of(
            ValueModel::Structure(
                seq![ValueModel::Integer(category), ValueModel::MmsString(text)],
            ),
        ) == Some(
            OriginModel {
                category: origin_category_of(category),
                identifier: encode_utf8(text),
            },
        ),
        origin_of(
            ValueModel::Structure(
                seq![ValueModel::OctetString(identifier), ValueModel::Integer(category)],
            ),
        ) is None,
{
}

/// What an originator encodes to: first the code of its category, then its identifier.
pub proof fn lemma_origin_encodes(o: OriginModel)
    ensures
        origin_value(o) matches ValueModel::Structure(m) && m.len() == 2 && m[0]
            == ValueModel::Integer(origin_category_code(o.category)) && m[1]
            == ValueModel::OctetString(o.identifier),
{
}

/// A check is two bits: the first asks for the synchrocheck, the second for the interlocking.
pub proof fn lemma_check_bits(b: u8)
    ensures
        check_of(ValueModel::BitString { unused: 6, bytes: seq![b] }) matches Some(c) && c.synchro
            == (b >= 128) && c.interlock == (64 <= b < 128 || b >= 192),
        check_value(Check { synchro: false, interlock: false }) == (ValueModel::BitString {
            unused: 6,
            bytes: seq![0u8],
        }),
        check_value(Check { synchro: true, interlock: false }) == (ValueModel::BitString {
            unused: 6,
            bytes: seq![128u8],
        }),
        check_value(Check { synchro: false, interlock: true }) == (ValueModel::BitString {
            unused: 6,
            bytes: seq![64u8],
        }),
        check_value(Check { synchro: true, interlock: true }) == (ValueModel::BitString {
            unused: 6,
            bytes: seq![192u8],
        }),
{
    assert(check_value(Check { synchro: false, interlock: false })->BitString_bytes =~= seq![0u8]);
    assert(check_value(Check { synchro: true, interlock: false })->BitString_bytes =~= seq![128u8]);
    assert(check_value(Check { synchro: false, interlock: true })->BitString_bytes =~= seq![64u8]);
    assert(check_value(Check { synchro: true, interlock: true })->BitString_bytes =~= seq![192u8]);
}

/// The structure of a failed control is its object, the error, the originator, the control number
/// and the additional cause, in this order: the second member names the error, and the fifth the
/// cause. A control number beyond one octet makes it no such structure.
pub proof fn lemma_failure_members(
    object: Seq<char>,
    error: i64,
    category: i64,
    identifier: Seq<u8>,
    number: u64,
    cause: i64,
)
    ensures
        ({
            let read = appl_error_of(
                ValueModel::Structure(
                    seq![
                        ValueModel::VisibleString(object),
                        ValueModel::Integer(error),
                        ValueModel::Structure(
                            seq![
                                ValueModel::Integer(category),
                                ValueModel::OctetString(identifier),
                            ],
                        ),
                        ValueModel::Unsigned(number),
                        ValueModel::Integer(cause),
                    ],
                ),
            );
            &&& number <= 255 ==> (read matches Ok(m) && {
                &&& m.control_object == object
                &&& m.error == control_error_of(error)
                &&& m.origin.category == origin_category_of(category)
                &&& m.origin.identifier == identifier
                &&& m.ctl_num == number
                &&& m.add_cause == add_cause_of(cause)
                &&& error == 0 ==> m.error == ControlError::NoError
                &&& error == 1 ==> m.error == ControlError::Unknown
                &&& error == 2 ==> m.error == ControlError::TimeoutTestNotOk
                &&& error == 3 ==> m.error == ControlError::OperatorTestNotOk
                &&& error < 0 || error > 3 ==> m.error == ControlError::Other(error)
                &&& cause == 0 ==> m.add_cause == AddCause::Unknown
                &&& cause == 10 ==> m.add_cause == AddCause::BlockedByInterlocking
                &&& cause == 27 ==> m.add_cause == AddCause::LockedByOtherClient
                &&& cause < 0 || cause > 27 ==> m.add_cause == AddCause::Other(cause)
            })
            &&& number > 255 ==> read is Err
        }),
{
    lemma_origin_members(category, identifier, Seq::empty());
}

/// What a failed control encodes to: five members, the error second and the cause last.
pub proof fn lemma_failure_encodes(m: LastApplErrorModel)
    ensures
        appl_error_value(m) matches ValueModel::Structure(s) && {
            &&& s.len() == 5
            &&& s[0] == ValueModel::VisibleString(m.control_object)
            &&& s[1] matches ValueModel::Integer(code) && control_error_code(m.error) == code
            &&& s[2] == origin_value(m.origin)
            &&& s[3] == ValueModel::Unsigned(m.ctl_num as u64)
            &&& s[4] matches ValueModel::Integer(code) && add_cause_code(m.add_cause) == code
        },
{
}

/// A control request reads its members in this order: the value, the originator, the control
/// number, the time, the test flag and the check. Where a time stands second, that is when to
/// operate, and the others follow it.
pub proof fn lemma_request_members(
    value: ValueModel,
    at: UtcTime,
    category: i64,
    identifier: Seq<u8>,
    number: u8,
    t: UtcTime,
    test: bool,
    check: u8,
)
    ensures
        ({
            let origin = ValueModel::Structure(
                seq![ValueModel::Integer(category), ValueModel::OctetString(identifier)],
            );
            let bits = ValueModel::BitString { unused: 6, bytes: seq![check] };
            let now = control_of(
                ValueModel::Structure(
                    seq![
                        value,
                        origin,
                        ValueModel::Unsigned(number as u64),
                        ValueModel::UtcTime(t),
                        ValueModel::Boolean(test),
                        bits,
                    ],
                ),
            );
            let timed = control_of(
                ValueModel::Structure(
                    seq![
                        value,
                        ValueModel::UtcTime(at),
                        origin,
                        ValueModel::Unsigned(number as u64),
                        ValueModel::UtcTime(t),
                        ValueModel::Boolean(test),
                        bits,
                    ],
                ),
            );
            &&& now matches Ok(m) && {
                &&& m.ctl_val == value
                &&& m.oper_tm is None
                &&& m.origin.category == origin_category_of(category)
                &&& m.origin.identifier == identifier
                &&& m.ctl_num == number
                &&& m.t == t
                &&& m.test == test
                &&& m.check.synchro == (check >= 128)
                &&& m.check.interlock == (64 <= check < 128 || check >= 192)
                &&& timed == Ok::<ControlRequestModel, Error>(
                    ControlRequestModel { oper_tm: Some(at), ..m },
                )
            }
        }),
{
    lemma_origin_members(category, identifier, Seq::empty());
    lemma_check_bits(check);
}

/// A request without a check asks for none, and one without a control number has number 0.
pub proof fn lemma_request_omits(
    value: ValueModel,
    category: i64,
    identifier: Seq<u8>,
    number: u8,
    t: UtcTime,
    test: bool,
)
    ensures
        ({
            let origin = ValueModel::Structure(
                seq![ValueModel::Integer(category), ValueModel::OctetString(identifier)],
            );
            &&& control_of(
                ValueModel::Structure(
                    seq![
                        value,
                        origin,
                        ValueModel::Unsigned(number as u64),
                        ValueModel::UtcTime(t),
                        ValueModel::Boolean(test),
                    ],
                ),
            ) matches Ok(m) && m.ctl_num == number && m.t == t && m.test == test && !m.check.synchro
                && !m.check.interlock
            &&& control_of(
                ValueModel::Structure(
                    seq![value, origin, ValueModel::UtcTime(t), ValueModel::Boolean(test)],
                ),
            ) matches Ok(m) && m.ctl_num == 0 && m.t == t && m.test == test
        }),
{
    lemma_origin_members(category, identifier, Seq::empty());
}

/// What a request encodes to, member by member, with and without a time to operate at. A `Cancel`
/// is the same without its last member, the check.
pub proof fn lemma_request_encodes(m: ControlRequestModel)
    ensures
        request_value(m) matches ValueModel::Structure(s) && {
            let i: int = if m.oper_tm is Some {
                1
            } else {
                0
            };
            &&& s.len() == 6 + i
            &&& s[0] == m.ctl_val
            &&& m.oper_tm matches Some(at) ==> s[1] == ValueModel::UtcTime(at)
            &&& s[1 + i] == origin_value(m.origin)
            &&& s[2 + i] == ValueModel::Unsigned(m.ctl_num as u64)
            &&& s[3 + i] == ValueModel::UtcTime(m.t)
            &&& s[4 + i] == ValueModel::Boolean(m.test)
            &&& s[5 + i] == check_value(m.check)
            &&& cancel_value(m) == ValueModel::Structure(s.take(5 + i))
        },
{
    let s = request_value(m)->Structure_0;
    assert(cancel_value(m)->Structure_0 =~= s.drop_last());
    assert(s.take(s.len() - 1) =~= s.drop_last());
}

/// A failed command is told by its failure: the value that says why it failed names the object first,
/// the number fourth and the cause fifth, and so does the termination. One that succeeded is told by
/// the request that was echoed, and has no cause.
pub proof fn lemma_termination_told(
    m: Seq<ValueModel>,
    error: LastApplErrorModel,
    request: ControlRequestModel,
    echo: Option<ControlRequestModel>,
    object: Seq<char>,
)
    requires
        appl_error_of(ValueModel::Structure(m)) == Ok::<LastApplErrorModel, Error>(error),
    ensures
        ({
            let failed = CommandTerminationModel::Negative { error, request: echo };
            let done = CommandTerminationModel::Positive { control_object: object, request };
            &&& m.len() >= 5
            &&& m[0] == ValueModel::VisibleString(ended_object(failed)) || m[0]
                == ValueModel::MmsString(ended_object(failed))
            &&& m[3] == ValueModel::Unsigned(ended_number(failed) as u64)
            &&& m[4] matches ValueModel::Integer(c) && ended_cause(failed) == Some(add_cause_of(c))
            &&& ended_object(done) == object
            &&& ended_number(done) == request.ctl_num
            &&& ended_cause(done) is None
        }),
{
}

} // verus!
