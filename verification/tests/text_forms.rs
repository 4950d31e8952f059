use yule_log::model::def;
use yule_log::model::inst::ParameterValue;
use yule_log::model::msg::{DefaultParameter, Dropout, LogLevel, LoggedString, Parameter, Subscription};

fn ty(base: def::BaseType, array_size: Option<usize>) -> def::TypeExpr {
    def::TypeExpr { base_type: base, array_size }
}

#[test]
fn types_fields_and_formats_as_definitions_write_them() {
    assert_eq!(def::BaseType::UINT64.to_text(), "uint64_t");
    assert_eq!(def::BaseType::OTHER("esc_report".to_string()).to_text(), "esc_report");
    assert_eq!(ty(def::BaseType::FLOAT, Some(4)).to_text(), "float[4]");
    let f1 = def::Field { name: "timestamp".to_string(), type_: ty(def::BaseType::UINT64, None) };
    let f2 = def::Field { name: "q".to_string(), type_: ty(def::BaseType::FLOAT, Some(4)) };
    assert_eq!(f2.to_text(), "float[4] q");
    let fmt = def::Format { name: "att".to_string(), fields: vec![f1, f2], padding: 0 };
    assert_eq!(fmt.to_text(), "uint64_t timestamp; float[4] q");
    let empty = def::Format { name: "e".to_string(), fields: vec![], padding: 0 };
    assert_eq!(empty.to_text(), "");
}

#[test]
fn subscriptions_dropouts_and_log_messages() {
    let s = Subscription { multi_id: 0, msg_id: 42, message_name: "vehicle_gps_position".to_string() };
    assert_eq!(s.to_text(), "Subscription: vehicle_gps_position msg_id: 42");
    assert_eq!(Dropout::new(350).to_text(), "350");
    let plain = LoggedString { level: LogLevel::Error, tag: None, timestamp: 1234, msg: "low battery".to_string() };
    assert_eq!(plain.to_text(), "ERR 1234: low battery");
    let tagged = LoggedString { level: LogLevel::Info, tag: Some(7), timestamp: 0, msg: "ok".to_string() };
    assert_eq!(tagged.to_text(), "INFO Tag: 7 0: ok");
    assert_eq!(LogLevel::Emerg.to_text(), "EMERG");
}

#[test]
fn parameters_with_integer_values() {
    let p = Parameter { key: "SYS_AUTOSTART".to_string(), type_: ty(def::BaseType::INT32, None), value: ParameterValue::INT32(-4001) };
    assert_eq!(p.to_text(), Some("SYS_AUTOSTART: -4001".to_string()));
    let f = Parameter { key: "MC_ROLL_P".to_string(), type_: ty(def::BaseType::FLOAT, None), value: ParameterValue::FLOAT(6.5f32.to_bits()) };
    assert_eq!(f.to_text(), None);
    let both = DefaultParameter { key: "P".to_string(), default_types: 3, type_: ty(def::BaseType::INT32, None), value: ParameterValue::INT32(1) };
    assert_eq!(both.to_text(), Some("P (SystemWide|Configuration): 1".to_string()));
    let conf = DefaultParameter { key: "P".to_string(), default_types: 2, type_: ty(def::BaseType::INT32, None), value: ParameterValue::INT32(0) };
    assert_eq!(conf.to_text(), Some("P (Configuration): 0".to_string()));
    let none = DefaultParameter { key: "P".to_string(), default_types: 0, type_: ty(def::BaseType::INT32, None), value: ParameterValue::INT32(5) };
    assert_eq!(none.default_kinds(), "");
    assert_eq!(none.to_text(), Some("P (): 5".to_string()));
}
