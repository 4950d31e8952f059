use std::rc::Rc;
use yule_log::macro_utils::FromField;
use yule_log::messages::ULogMessageType;
use yule_log::model::def;
use yule_log::model::inst::{Field, FieldValue, Format};
use yule_log::model::{CChar, CCharSlice};
use yule_log::values::{duplicate_format, duplicate_value};

fn def_format(name: &str) -> Rc<def::Format> {
    Rc::new(def::Format { name: name.to_string(), fields: vec![], padding: 0 })
}

fn field(name: &str, base_type: def::BaseType, array_size: Option<usize>, value: FieldValue) -> Field {
    Field { name: name.to_string(), type_: def::TypeExpr { base_type, array_size }, value }
}

fn sample() -> Format {
    let inner = Format {
        timestamp: None,
        name: "inner".to_string(),
        fields: vec![field("a", def::BaseType::UINT16, None, FieldValue::ScalarU16(5))],
        multi_id_index: None,
        def_format: def_format("inner"),
    };
    Format {
        timestamp: Some(10),
        name: "outer".to_string(),
        fields: vec![
            field("timestamp", def::BaseType::UINT64, None, FieldValue::ScalarU64(10)),
            field("v", def::BaseType::INT8, Some(2), FieldValue::ArrayI8(vec![-1, 2])),
            field("n", def::BaseType::OTHER("inner".to_string()), None, FieldValue::ScalarOther(Rc::new(duplicate_format(&inner)))),
            field("m", def::BaseType::OTHER("inner".to_string()), Some(1), FieldValue::ArrayOther(vec![inner])),
        ],
        multi_id_index: Some(3),
        def_format: def_format("outer"),
    }
}

#[test]
fn flatten_gives_each_scalar_with_its_path() {
    let f = sample();
    assert_eq!(f.display_name(), "outer.03");
    #[allow(deprecated)]
    let flat = f.flatten();
    let paths: Vec<&str> = flat.iter().map(|(p, _)| p.as_str()).collect();
    assert_eq!(
        paths,
        vec!["outer.03/timestamp", "outer.03/v.00", "outer.03/v.01", "outer.03/n/a", "outer.03/m.00/a"]
    );
    assert_eq!(flat[2].1, FieldValue::ScalarI8(2));
    assert_eq!(flat[4].1, FieldValue::ScalarU16(5));
}

#[test]
fn to_scalars_takes_arrays_apart() {
    assert_eq!(
        FieldValue::ArrayU16(vec![1, 2]).to_scalars(),
        Some(vec![FieldValue::ScalarU16(1), FieldValue::ScalarU16(2)])
    );
    assert_eq!(
        FieldValue::ArrayChar(vec![CChar(b'a')]).to_scalars(),
        Some(vec![FieldValue::ScalarChar(CChar(b'a'))])
    );
    assert_eq!(FieldValue::ScalarU8(1).to_scalars(), None);
    let f = sample();
    match &f.fields[3].value {
        FieldValue::ArrayOther(fs) => {
            let s = f.fields[3].value.to_scalars().unwrap();
            assert_eq!(s, vec![FieldValue::ScalarOther(Rc::new(duplicate_format(&fs[0])))]);
        }
        _ => unreachable!(),
    }
}

#[test]
fn duplicates_are_equal() {
    let f = sample();
    assert_eq!(duplicate_format(&f), f);
    let v = FieldValue::ArrayU64(vec![1, 2, 3]);
    assert_eq!(duplicate_value(&v), v);
}

#[test]
fn fields_convert_to_their_own_type_only() {
    let f = field("x", def::BaseType::UINT32, None, FieldValue::ScalarU32(7));
    assert_eq!(u32::from_field(&f).unwrap(), 7);
    assert!(matches!(u16::from_field(&f), Err(yule_log::errors::ULogError::TypeMismatch(_))));
    let a = field("y", def::BaseType::INT16, Some(2), FieldValue::ArrayI16(vec![3, -4]));
    assert_eq!(<Vec<i16>>::from_field(&a).unwrap(), vec![3, -4]);
    assert!(<Vec<u8>>::from_field(&a).is_err());
    let c = field("c", def::BaseType::CHAR, Some(2), FieldValue::ArrayChar(vec![CChar(b'o'), CChar(b'k')]));
    assert_eq!(<Vec<CChar>>::from_field(&c).unwrap(), vec![CChar(b'o'), CChar(b'k')]);
    let b = field("b", def::BaseType::BOOL, None, FieldValue::ScalarBool(true));
    assert!(bool::from_field(&b).unwrap());
}

#[test]
fn character_data_as_text() {
    let cs = [CChar(b'h'), CChar(b'i')];
    assert_eq!(cs[..].to_string_lossy(), "hi");
    let bad = [CChar(0xff)];
    assert_eq!(bad[..].to_string_lossy(), "\u{FFFD}");
    assert_eq!(u8::from(CChar(7)), 7);
    assert_eq!(CChar::from(9u8), CChar(9));
}

#[test]
fn message_type_conversions() {
    assert_eq!(ULogMessageType::from(b'D'), ULogMessageType::DATA);
    assert_eq!(u8::from(ULogMessageType::INFO_MULTIPLE), b'M');
    assert_eq!(u8::from(ULogMessageType::UNKNOWN(3)), 3);
}
