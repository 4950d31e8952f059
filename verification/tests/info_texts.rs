use std::rc::Rc;
use yule_log::model::def;
use yule_log::model::inst::{self, FieldValue};
use yule_log::model::msg::{Info, MultiInfo};
use yule_log::model::CChar;

fn info(key: &str, base: def::BaseType, array_size: Option<usize>, value: FieldValue) -> Info {
    Info { key: key.to_string(), type_: def::TypeExpr { base_type: base, array_size }, value }
}

#[test]
fn release_numbers_are_hexadecimal() {
    let i = info("ver_sw_release", def::BaseType::UINT32, None, FieldValue::ScalarU32(0x010A_FF00));
    assert_eq!(i.info_text(), Some("ver_sw_release: 0x10AFF00".to_string()));
    assert_eq!(i.info_text(), Some(format!("ver_sw_release: {:#X}", 0x010A_FF00u32)));
    let plain = info("ver_sw_branch", def::BaseType::UINT32, None, FieldValue::ScalarU32(255));
    assert_eq!(plain.info_text(), Some("ver_sw_branch: 255".to_string()));
}

#[test]
fn numbers_booleans_and_characters() {
    let n = info("n", def::BaseType::INT64, None, FieldValue::ScalarI64(i64::MIN));
    assert_eq!(n.info_text(), Some(format!("n: {}", i64::MIN)));
    let m = info("m", def::BaseType::INT8, None, FieldValue::ScalarI8(-7));
    assert_eq!(m.info_text(), Some("m: -7".to_string()));
    let u = info("u", def::BaseType::UINT64, None, FieldValue::ScalarU64(u64::MAX));
    assert_eq!(u.info_text(), Some(format!("u: {}", u64::MAX)));
    let b = info("b", def::BaseType::BOOL, None, FieldValue::ScalarBool(true));
    assert_eq!(b.info_text(), Some("b: true".to_string()));
    let c = info("c", def::BaseType::CHAR, None, FieldValue::ScalarChar(CChar(b'Q')));
    assert_eq!(c.info_text(), Some("c: Q".to_string()));
    let high = info("c", def::BaseType::CHAR, None, FieldValue::ScalarChar(CChar(0xE9)));
    assert_eq!(high.info_text(), Some("c: \\xE9".to_string()));
}

#[test]
fn arrays_and_text() {
    let a = info("a", def::BaseType::INT16, Some(3), FieldValue::ArrayI16(vec![1, -2, 300]));
    assert_eq!(a.info_text(), Some("a: [1, -2, 300]".to_string()));
    let e = info("e", def::BaseType::UINT8, Some(0), FieldValue::ArrayU8(vec![]));
    assert_eq!(e.info_text(), Some("e: []".to_string()));
    let bs = info("bs", def::BaseType::BOOL, Some(2), FieldValue::ArrayBool(vec![false, true]));
    assert_eq!(bs.info_text(), Some("bs: [false, true]".to_string()));
    let text: Vec<CChar> = b"PX4".iter().map(|&b| CChar(b)).collect();
    let s = info("sys_name", def::BaseType::CHAR, Some(3), FieldValue::ArrayChar(text));
    assert_eq!(s.info_text(), Some("sys_name: \"PX4\"".to_string()));
}

#[test]
fn nested_values_by_name() {
    let make = || {
        let def_format = Rc::new(def::Format { name: "pos".to_string(), fields: vec![], padding: 0 });
        inst::Format { timestamp: None, name: "pos".to_string(), fields: vec![], multi_id_index: Some(3), def_format }
    };
    let one = info("p", def::BaseType::OTHER("pos".to_string()), None, FieldValue::ScalarOther(Rc::new(make())));
    assert_eq!(one.info_text(), Some("p: {pos.03}".to_string()));
    let many = info("q", def::BaseType::OTHER("pos".to_string()), Some(2), FieldValue::ArrayOther(vec![make(), make()]));
    assert_eq!(many.info_text(), Some("q: [{pos.03}, {pos.03}]".to_string()));
}

#[test]
fn floats_are_left_to_the_caller() {
    let f = info("f", def::BaseType::FLOAT, None, FieldValue::ScalarF32(1.5f32.to_bits()));
    assert_eq!(f.info_text(), None);
    let d = info("d", def::BaseType::DOUBLE, Some(1), FieldValue::ArrayF64(vec![2.0f64.to_bits()]));
    assert_eq!(d.info_text(), None);
    let mi = MultiInfo {
        is_continued: false,
        key: "ver_hw_release".to_string(),
        type_: def::TypeExpr { base_type: def::BaseType::UINT32, array_size: None },
        value: FieldValue::ScalarU32(16),
    };
    assert_eq!(mi.info_text(), Some("ver_hw_release: 0x10".to_string()));
}
