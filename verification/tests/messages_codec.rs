use yule_log::encode::Encode;
use yule_log::message_buf::MessageBuf;
use yule_log::messages::ULogMessageType;
use yule_log::model::def;
use yule_log::errors::ULogError;
use yule_log::field_helpers::parse_array;
use yule_log::model::msg::{DefaultParameter, DefaultType, FileHeader, FlagBits, LogLevel, UlogMessage};
use yule_log::model::inst::ParameterValue;
use yule_log::parser::ULogParser;

#[test]
fn parser_test_round_trip_subscription() {
    //  \x0A    \x01\x00  my_message
    // multi_id  msg_id   message_name
    let input_bytes = b"\x0A\x01\x00my_message";
    let cursor = std::io::Cursor::new(input_bytes);
    let mut parser = ULogParser::new(cursor).expect("Unable to create ULogParser");
    parser.insert_format(
        "my_message",
        def::Format { name: "".to_string(), fields: vec![], padding: 0 },
    );
    let message_buf = MessageBuf::from_vec(input_bytes.to_vec());
    let parsed_subscription = parser.parse_subscription(message_buf).expect("Unable to parse subscription");
    println!("parsed_subscription: {:?}", parsed_subscription);
    let mut emitted_bytes = Vec::new();
    parsed_subscription.encode(&mut emitted_bytes);
    println!("Emitted bytes: {:?}", emitted_bytes);
    assert_eq!(emitted_bytes, input_bytes);
}

#[test]
fn header_bytes_are_magic_version_and_timestamp() {
    let h = FileHeader { version: 1, timestamp: 0x0102030405060708 };
    assert_eq!(
        h.to_bytes(),
        vec![0x55, 0x4c, 0x6f, 0x67, 0x01, 0x12, 0x35, 1, 8, 7, 6, 5, 4, 3, 2, 1]
    );
}

#[test]
fn message_types_and_their_bytes() {
    assert_eq!(ULogMessageType::from_u8(b'F'), ULogMessageType::FORMAT);
    assert_eq!(ULogMessageType::from_u8(b'C'), ULogMessageType::LOGGING_TAGGED);
    assert_eq!(ULogMessageType::from_u8(254), ULogMessageType::UNKNOWN(254));
    assert_eq!(ULogMessageType::HEADER.to_u8(), 254);
    for b in 0..=255u8 {
        assert_eq!(ULogMessageType::from_u8(b).to_u8(), b);
    }
}

#[test]
fn log_levels_and_their_bytes() {
    assert_eq!(LogLevel::try_from_u8(b'0').unwrap(), LogLevel::Emerg);
    assert_eq!(LogLevel::try_from_u8(b'7').unwrap(), LogLevel::Debug);
    assert!(LogLevel::try_from_u8(b'8').is_err());
    assert_eq!(LogLevel::Warning.to_u8(), b'4');
}

#[test]
fn default_types_and_flags() {
    let p = DefaultParameter {
        key: "P".to_string(),
        default_types: 3,
        type_: def::TypeExpr { base_type: def::BaseType::FLOAT, array_size: None },
        value: ParameterValue::FLOAT(1.5f32.to_bits()),
    };
    assert_eq!(p.get_default_type(), DefaultType { system_wide: true, configuration: true });
    assert_eq!(DefaultType::from_bits(2), DefaultType { system_wide: false, configuration: true });
    let bytes = p.encode_to_vec();
    let mut expected = vec![3u8, 7];
    expected.extend_from_slice(b"float P");
    expected.extend_from_slice(&1.5f32.to_le_bytes());
    assert_eq!(bytes, expected);
}

#[test]
fn message_buf_takes_values_little_endian() {
    let mut b = MessageBuf::from_vec(vec![1, 2, 0, 3, 0, 0, 0, 0xff]);
    assert_eq!(b.take_u8().unwrap(), 1);
    assert_eq!(b.take_u16().unwrap(), 2);
    assert_eq!(b.take_u32().unwrap(), 3);
    assert_eq!(b.take_i8().unwrap(), -1);
    assert!(b.is_empty());
    assert!(b.take_u8().is_err());
    let mut b = MessageBuf::from_vec(vec![1, 2, 3]);
    assert!(b.take_u64().is_err());
    assert_eq!(b.len(), 3);
    assert_eq!(b.advance(2).unwrap(), &[1, 2]);
    assert_eq!(b.into_remaining_bytes(), vec![3]);
}

#[test]
fn data_appended_needs_the_flag_and_a_nonzero_offset() {
    let flagged_no_offset = FlagBits { compat_flags: [0; 8], incompat_flags: [1, 0, 0, 0, 0, 0, 0, 0], appended_data_offsets: [0, 0, 0] };
    assert!(!flagged_no_offset.has_data_appended());
    let flagged_offset = FlagBits { compat_flags: [0; 8], incompat_flags: [1, 0, 0, 0, 0, 0, 0, 0], appended_data_offsets: [0, 0, 512] };
    assert!(flagged_offset.has_data_appended());
    let offset_no_flag = FlagBits { compat_flags: [0; 8], incompat_flags: [2, 0, 0, 0, 0, 0, 0, 0], appended_data_offsets: [64, 0, 0] };
    assert!(!offset_no_flag.has_data_appended());
    assert!(!flagged_offset.has_default_parameters());
}

#[test]
fn remove_subscription_keeps_its_bytes_and_forgets_the_id() {
    let mut parser = ULogParser::new(std::io::empty()).unwrap();
    let msg = parser.parse_data(ULogMessageType::REMOVE_SUBSCRIPTION, MessageBuf::from_vec(vec![5, 0])).unwrap();
    match &msg {
        UlogMessage::Unhandled { msg_type, message_contents } => {
            assert_eq!(*msg_type, b'R');
            assert_eq!(message_contents, &vec![5, 0]);
        }
        _ => panic!("a removal comes back as its raw bytes"),
    }
    let mut out = Vec::new();
    msg.encode(&mut out);
    assert_eq!(out, vec![2, 0, b'R', 5, 0]);
    assert!(matches!(parser.get_subscription(5), Err(ULogError::UndefinedSubscription(5))));
}

#[test]
fn message_buf_reads_take_exactly_what_they_consume() {
    let mut m = MessageBuf::from_vec(vec![1, 2, 3, 4, 5, 6, 7, 8, 9, 10]);
    assert_eq!(m.take_u16().unwrap(), 0x0201);
    assert_eq!(m.len(), 8);
    assert!(m.take_u64().is_ok());
    assert_eq!(m.len(), 0);
    assert!(m.take_u8().is_err());
    assert_eq!(m.len(), 0);
    let mut n = MessageBuf::from_vec(vec![1, 2, 3]);
    assert!(n.take_u32().is_err());
    assert_eq!(n.len(), 3);
    assert!(n.skip(5).is_err());
    assert_eq!(n.len(), 3);
    assert_eq!(n.advance(2).unwrap(), &[1, 2]);
    assert_eq!(n.len(), 1);
    assert!(n.take_bool().unwrap());
    assert!(n.is_empty());
}

#[test]
fn parse_array_reads_each_element_in_turn() {

    let take = |b: MessageBuf| {
        let mut b = b;
        let v = b.take_u16();
        (b, v)
    };
    let mut m = MessageBuf::from_vec(vec![1, 0, 2, 0, 3, 0, 9]);
    assert_eq!(parse_array(3, &mut m, take).unwrap(), vec![1u16, 2, 3]);
    assert_eq!(m.len(), 1);
    let mut short = MessageBuf::from_vec(vec![1, 0, 2]);
    assert!(matches!(parse_array(2, &mut short, take), Err(ULogError::ParseError(_))));
    assert_eq!(short.len(), 1);
    let mut none = MessageBuf::from_vec(vec![7]);
    assert_eq!(parse_array(0, &mut none, take).unwrap(), Vec::<u16>::new());
    assert_eq!(none.len(), 1);
}
