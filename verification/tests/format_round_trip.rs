use yule_log::encode::Encode;
use yule_log::formats::parse_format;
use yule_log::message_buf::MessageBuf;
use yule_log::model::def;

const INPUT: &[u8] = b"my_format:uint64_t timestamp;custom_type custom_field;bool is_happy;custom_type2[4] custom_field;uint8_t[8] pet_ids;";

#[test]
fn encode_test_round_trip_format() {
    let message_buf = MessageBuf::from_vec(INPUT.to_vec());
    let parsed_format = parse_format(message_buf).unwrap();
    let re_emitted_bytes = parsed_format.encode_to_vec();
    println!("re_emitted_bytes: {:?}", String::from_utf8_lossy(&re_emitted_bytes));
    assert_eq!(re_emitted_bytes, INPUT);
}

#[test]
fn formats_test_round_trip_format() {
    let message_buf = MessageBuf::from_vec(INPUT.to_vec());
    let parsed_format = parse_format(message_buf).unwrap();
    let mut re_emitted_bytes = Vec::new();
    parsed_format.encode(&mut re_emitted_bytes);
    println!("re_emitted_bytes: {:?}", std::str::from_utf8(&re_emitted_bytes).unwrap());
    assert_eq!(re_emitted_bytes, INPUT);
}

#[test]
fn parser_test_round_trip_format() {
    let message_buf = MessageBuf::from_vec(INPUT.to_vec());
    let parsed_format = parse_format(message_buf).unwrap();
    let mut emitted_bytes = Vec::new();
    parsed_format.encode(&mut emitted_bytes);
    println!("re_emitted_bytes: {:?}", String::from_utf8(emitted_bytes.clone()).unwrap());
    assert_eq!(emitted_bytes, INPUT);
}

#[test]
fn writer_test_round_trip_format() {
    let message_buf = MessageBuf::from_vec(INPUT.to_vec());
    let parsed_format = parse_format(message_buf).unwrap();
    let re_emitted_bytes: Vec<u8> = parsed_format.encode_to_vec();
    println!("re_emitted_bytes: {:?}", String::from_utf8_lossy(&re_emitted_bytes));
    assert_eq!(re_emitted_bytes, INPUT);
}

#[test]
fn formats_test_parse_format() {
    let input = b"my_format:uint64_t timestamp; bool is_happy; uint8_t[8] pet_ids;";
    let message_buf = MessageBuf::from_vec(input.to_vec());
    let result = parse_format(message_buf);
    let expected_format = def::Format {
        name: "my_format".to_string(),
        fields: vec![
            def::Field {
                name: "timestamp".to_string(),
                type_: def::TypeExpr { base_type: def::BaseType::UINT64, array_size: None },
            },
            def::Field {
                name: "is_happy".to_string(),
                type_: def::TypeExpr { base_type: def::BaseType::BOOL, array_size: None },
            },
            def::Field {
                name: "pet_ids".to_string(),
                type_: def::TypeExpr { base_type: def::BaseType::UINT8, array_size: Some(8) },
            },
        ],
        padding: 0,
    };
    assert_eq!(result.unwrap(), expected_format);
}

#[test]
fn format_errors_have_their_kind() {
    // Not UTF-8.
    let r = parse_format(MessageBuf::from_vec(vec![0xff, 0xfe]));
    assert!(matches!(r, Err(yule_log::errors::ULogError::Utf8(_))));
    // No colon after the name.
    let r = parse_format(MessageBuf::from_vec(b"name uint8_t x;".to_vec()));
    assert!(matches!(r, Err(yule_log::errors::ULogError::ParseError(_))));
    // A field without its closing semicolon.
    let r = parse_format(MessageBuf::from_vec(b"name:uint8_t x".to_vec()));
    assert!(matches!(r, Err(yule_log::errors::ULogError::UnexpectedEndOfFile)));
    // An array size too large for a usize.
    let r = parse_format(MessageBuf::from_vec(b"n:uint8_t[99999999999999999999999] x;".to_vec()));
    assert!(matches!(r, Err(yule_log::errors::ULogError::ParseError(_))));
}

#[test]
fn format_with_other_type_round_trips_through_parse() {
    let input = b"outer:inner[3] items;uint64_t timestamp;".to_vec();
    let f = parse_format(MessageBuf::from_vec(input.clone())).unwrap();
    assert_eq!(f.fields[0].type_.base_type, def::BaseType::OTHER("inner".to_string()));
    assert_eq!(f.fields[0].type_.array_size, Some(3));
    let again = parse_format(MessageBuf::from_vec(f.encode_to_vec())).unwrap();
    assert_eq!(again, f);
}
