//! Control.

use iec61850_rs::common::{ControlModel, Quality, TimeQuality, UtcTime};
use iec61850_rs::proto::data::{Dbpos, Value};
use iec61850_rs::proto::mms::control::{
    AddCause, Check, CommandTermination, ControlError, ControlRequest, LastApplError, Origin,
    OriginCategory,
};

fn now() -> UtcTime {
    UtcTime::from_unix(1_700_000_000, 0, TimeQuality::synchronized())
}

#[test]
fn an_oper_round_trips_with_and_without_oper_tm() {
    let mut r = ControlRequest::new(Value::dbpos(Dbpos::On), 4, now());
    r.origin = Origin::new(OriginCategory::StationControl, "hmi-1");
    r.check = Check::both();
    let v = r.to_value();
    assert_eq!(v.members().map(<[Value]>::len), Some(6), "ctlVal, origin, ctlNum, T, Test, Check");
    assert_eq!(ControlRequest::from_value(&v).unwrap(), r);

    r.oper_tm = Some(now());
    let v = r.to_value();
    assert_eq!(v.members().map(<[Value]>::len), Some(7));
    assert_eq!(ControlRequest::from_value(&v).unwrap(), r);
}

#[test]
fn an_oper_from_a_device_without_ctl_num_still_decodes() {
    let v = Value::Structure(vec![
        Value::Boolean(true),
        Origin::new(OriginCategory::StationControl, "hmi").to_value(),
        Value::UtcTime(now()),
        Value::Boolean(false),
        Check::none().to_value(),
    ]);
    let r = ControlRequest::from_value(&v).unwrap();
    assert_eq!((r.ctl_num, r.t, r.oper_tm), (0, now(), None));
    assert_eq!(r.ctl_val, Value::Boolean(true));
}

#[test]
fn a_cancel_is_an_oper_without_the_check() {
    let r = ControlRequest::new(Value::Boolean(true), 9, now());
    let v = r.to_cancel_value();
    assert_eq!(v.members().map(<[Value]>::len), Some(5));
    let back = ControlRequest::from_value(&v).unwrap();
    assert_eq!(back.check, Check::none(), "a cancel asks for no checks because it carries none");
    assert_eq!((back.ctl_num, back.ctl_val), (9, Value::Boolean(true)));
}

#[test]
fn the_check_bits_are_synchro_then_interlock() {
    assert_eq!(Check { synchro: true, interlock: false }.to_value(), Value::BitString { unused: 6, bytes: vec![0b1000_0000] });
    assert_eq!(Check { synchro: false, interlock: true }.to_value(), Value::BitString { unused: 6, bytes: vec![0b0100_0000] });
    for c in [Check::none(), Check::both(), Check { synchro: true, interlock: false }, Check { synchro: false, interlock: true }] {
        assert_eq!(Check::from_value(&c.to_value()), Some(c));
    }
    assert_eq!(Check::from_value(&Value::quality(Quality::good())), None);
    assert_eq!(Check::from_value(&Value::Boolean(true)), None);
    assert_eq!(Check::from_value(&Value::dbpos(Dbpos::On)), Some(Check { synchro: true, interlock: false }));
}

#[test]
fn last_appl_error_names_the_reason_a_breaker_did_not_move() {
    let e = LastApplError {
        control_object: String::from("IED1LD0/CSWI1$CO$Pos$Oper"),
        error: ControlError::Unknown,
        origin: Origin::new(OriginCategory::RemoteControl, "scada"),
        ctl_num: 4,
        add_cause: AddCause::BlockedByInterlocking,
    };
    assert_eq!(LastApplError::from_value(&e.to_value()).unwrap(), e);
    assert_eq!(e.add_cause.to_code(), 10);
    for code in 0..=27 {
        assert_eq!(AddCause::from_code(code).to_code(), code);
    }
    assert_eq!(AddCause::from_code(99), AddCause::Other(99));
    for code in 0..=3 {
        assert_eq!(ControlError::from_code(code).to_code(), code);
    }
}

#[test]
fn the_control_model_says_which_services_are_legal() {
    assert!(!ControlModel::DirectNormal.needs_select());
    assert!(ControlModel::SboNormal.needs_select() && !ControlModel::SboNormal.select_carries_value());
    assert!(ControlModel::SboEnhanced.select_carries_value());
    assert!(ControlModel::SboEnhanced.enhanced_security() && ControlModel::DirectEnhanced.enhanced_security());
    assert!(!ControlModel::DirectNormal.enhanced_security());
    for code in 0..=4 {
        assert_eq!(ControlModel::from_code(code).unwrap().to_code(), code);
    }
    assert_eq!(ControlModel::from_code(5), None);
}

#[test]
fn an_origin_identifier_may_be_octets_or_text() {
    let o = Origin::new(OriginCategory::Maintenance, "tool");
    assert_eq!(Origin::from_value(&o.to_value()), Some(o.clone()));
    assert_eq!(o.identifier_str(), Some("tool"));
    let binary = Origin { category: OriginCategory::Process, identifier: vec![0x00, 0xFF, 0x80] };
    assert_eq!(binary.identifier_str(), None);
    assert_eq!(Origin::from_value(&binary.to_value()), Some(binary));
    assert_eq!(OriginCategory::from_code(42), OriginCategory::Other(42));
}

#[test]
fn a_termination_is_tied_to_its_command_by_ctl_num() {
    let r = ControlRequest::new(Value::Boolean(true), 7, now());
    let positive = CommandTermination::Positive { control_object: String::from("IED1LD0/CSWI1$CO$Pos$Oper"), request: r.clone() };
    assert!(positive.is_positive());
    assert_eq!(positive.ctl_num(), 7);
    let negative = CommandTermination::Negative {
        error: LastApplError {
            control_object: String::from("IED1LD0/CSWI1$CO$Pos$Oper"),
            ctl_num: 7,
            add_cause: AddCause::TimeLimitOver,
            ..Default::default()
        },
        request: Some(r),
    };
    assert!(!negative.is_positive());
    assert_eq!((negative.ctl_num(), negative.control_object()), (7, "IED1LD0/CSWI1$CO$Pos$Oper"));
}
