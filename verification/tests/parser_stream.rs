use yule_log::builder::ULogParserBuilder;
use yule_log::encode::Encode;
use yule_log::errors::ULogError;
use yule_log::model::inst::{FieldValue, ParameterValue};
use yule_log::model::msg::{LogLevel, UlogMessage};
use yule_log::parser::ULogParser;

const MAGIC: [u8; 7] = [0x55, 0x4c, 0x6f, 0x67, 0x01, 0x12, 0x35];

fn header(version: u8, timestamp: u64) -> Vec<u8> {
    let mut v = MAGIC.to_vec();
    v.push(version);
    v.extend_from_slice(&timestamp.to_le_bytes());
    v
}

fn message(msg_type: u8, body: &[u8]) -> Vec<u8> {
    let mut v = (body.len() as u16).to_le_bytes().to_vec();
    v.push(msg_type);
    v.extend_from_slice(body);
    v
}

fn key(text: &str) -> Vec<u8> {
    let mut v = vec![text.len() as u8];
    v.extend_from_slice(text.as_bytes());
    v
}

/// Feeds `bytes` to the parser as it asks for them, as a reader would.
fn run<R>(parser: &mut ULogParser<R>, bytes: &[u8]) -> Vec<Result<UlogMessage, ULogError>> {
    let mut pos = 0usize;
    let mut out = Vec::new();
    while let Some(n) = parser.bytes_wanted() {
        let end = std::cmp::min(pos + n, bytes.len());
        let chunk = bytes[pos..end].to_vec();
        pos = end;
        match parser.supply(chunk) {
            Ok(Some(m)) => out.push(Ok(m)),
            Ok(None) => {}
            Err(e) => out.push(Err(e)),
        }
    }
    out
}

fn data_body(msg_id: u16, timestamp: u64, x: i16, pad: [u8; 2], flag: u8) -> Vec<u8> {
    let mut v = msg_id.to_le_bytes().to_vec();
    v.extend_from_slice(&timestamp.to_le_bytes());
    v.extend_from_slice(&x.to_le_bytes());
    v.extend_from_slice(&pad);
    v.push(flag);
    v
}

fn sample_file() -> Vec<u8> {
    let mut f = header(1, 123456);
    f.extend(message(b'B', &[0u8; 40]));
    f.extend(message(b'F', b"my_msg:uint64_t timestamp;int16_t x;uint8_t[2] _padding0;bool flag;"));
    let mut info = key("char[5] sys_name");
    info.extend_from_slice(b"hello");
    f.extend(message(b'I', &info));
    let mut param = key("int32_t SYS_ID");
    param.extend_from_slice(&(-7i32).to_le_bytes());
    f.extend(message(b'P', &param));
    let mut sub = vec![0u8];
    sub.extend_from_slice(&1u16.to_le_bytes());
    sub.extend_from_slice(b"my_msg");
    f.extend(message(b'A', &sub));
    f.extend(message(b'D', &data_body(1, 1000, -2, [0, 0], 1)));
    let mut log = vec![b'6'];
    log.extend_from_slice(&2000u64.to_le_bytes());
    log.extend_from_slice(b"hello log");
    f.extend(message(b'L', &log));
    let mut tagged = vec![b'3'];
    tagged.extend_from_slice(&9u16.to_le_bytes());
    tagged.extend_from_slice(&3000u64.to_le_bytes());
    tagged.extend_from_slice(b"tagged");
    f.extend(message(b'C', &tagged));
    f.extend(message(b'O', &500u16.to_le_bytes()));
    f.extend(message(b'Z', b"raw"));
    f.extend(message(b'R', &1u16.to_le_bytes()));
    f
}

#[test]
fn every_message_is_written_back_byte_for_byte() {
    let file = sample_file();
    let mut parser = ULogParserBuilder::new(())
        .include_header(true)
        .include_timestamp(true)
        .include_padding(true)
        .build()
        .unwrap();
    let messages = run(&mut parser, &file);
    let mut emitted = Vec::new();
    for m in &messages {
        let m = m.as_ref().expect("no message fails");
        m.encode(&mut emitted);
    }
    assert_eq!(messages.len(), 12);
    assert_eq!(emitted, file);
}

#[test]
fn messages_carry_their_decoded_contents() {
    let file = sample_file();
    let mut parser = ULogParserBuilder::new(()).include_header(true).build().unwrap();
    let messages: Vec<UlogMessage> = run(&mut parser, &file).into_iter().map(|r| r.unwrap()).collect();
    match &messages[0] {
        UlogMessage::Header(h) => {
            assert_eq!(h.version, 1);
            assert_eq!(h.timestamp, 123456);
        }
        other => panic!("unexpected {:?}", other),
    }
    match &messages[3] {
        UlogMessage::Info(i) => {
            assert_eq!(i.key, "sys_name");
            assert_eq!(i.value, FieldValue::ArrayChar(b"hello".iter().map(|b| yule_log::model::CChar(*b)).collect()));
        }
        other => panic!("unexpected {:?}", other),
    }
    match &messages[4] {
        UlogMessage::Parameter(p) => {
            assert_eq!(p.key, "SYS_ID");
            assert_eq!(p.value, ParameterValue::INT32(-7));
        }
        other => panic!("unexpected {:?}", other),
    }
    match &messages[6] {
        UlogMessage::LoggedData(d) => {
            assert_eq!(d.timestamp, 1000);
            assert_eq!(d.msg_id, 1);
            // timestamp and padding are left out by default.
            assert_eq!(d.data.fields.len(), 2);
            assert_eq!(d.data.fields[0].name, "x");
            assert_eq!(d.data.fields[0].value, FieldValue::ScalarI16(-2));
            assert_eq!(d.data.fields[1].value, FieldValue::ScalarBool(true));
            assert_eq!(d.data.multi_id_index, None);
        }
        other => panic!("unexpected {:?}", other),
    }
    match &messages[7] {
        UlogMessage::LoggedString(l) => {
            assert_eq!(l.level, LogLevel::Info);
            assert_eq!(l.tag, None);
            assert_eq!(l.timestamp, 2000);
            assert_eq!(l.msg, "hello log");
        }
        other => panic!("unexpected {:?}", other),
    }
    match &messages[8] {
        UlogMessage::TaggedLoggedString(l) => {
            assert_eq!(l.level, LogLevel::Error);
            assert_eq!(l.tag, Some(9));
            assert_eq!(l.msg, "tagged");
        }
        other => panic!("unexpected {:?}", other),
    }
    match &messages[9] {
        UlogMessage::DropoutMark(d) => assert_eq!(d.duration(), 500),
        other => panic!("unexpected {:?}", other),
    }
    match &messages[10] {
        UlogMessage::Unhandled { msg_type, message_contents } => {
            assert_eq!(*msg_type, b'Z');
            assert_eq!(message_contents, b"raw");
        }
        other => panic!("unexpected {:?}", other),
    }
    match &messages[11] {
        UlogMessage::Unhandled { msg_type, message_contents } => {
            assert_eq!(*msg_type, b'R');
            assert_eq!(message_contents, &1u16.to_le_bytes().to_vec());
        }
        other => panic!("unexpected {:?}", other),
    }
}

#[test]
fn header_is_left_out_by_default() {
    let file = sample_file();
    let mut parser = ULogParser::new(()).unwrap();
    let messages = run(&mut parser, &file);
    assert!(matches!(messages[0], Ok(UlogMessage::FlagBits(_))));
}

#[test]
fn data_outside_the_allow_list_comes_back_raw() {
    let file = sample_file();
    let mut parser = ULogParserBuilder::new(())
        .set_subscription_allow_list(vec!["other".to_string()])
        .build()
        .unwrap();
    let messages = run(&mut parser, &file);
    let body = data_body(1, 1000, -2, [0, 0], 1);
    match &messages[5] {
        Ok(UlogMessage::Ignored { msg_type, message_contents }) => {
            assert_eq!(*msg_type, b'D');
            assert_eq!(message_contents, &body);
        }
        other => panic!("unexpected {:?}", other),
    }
}

#[test]
fn data_in_the_allow_list_is_decoded() {
    let file = sample_file();
    let mut parser = ULogParserBuilder::new(())
        .set_subscription_allow_list(vec!["my_msg".to_string()])
        .build()
        .unwrap();
    let messages = run(&mut parser, &file);
    assert!(matches!(messages[5], Ok(UlogMessage::LoggedData(_))));
}

#[test]
fn bad_magic_is_an_invalid_header() {
    let mut file = sample_file();
    file[0] = 0;
    let mut parser = ULogParser::new(()).unwrap();
    let messages = run(&mut parser, &file);
    assert!(matches!(messages[0], Err(ULogError::InvalidHeader)));
}

#[test]
fn short_file_is_an_invalid_header() {
    let mut parser = ULogParser::new(()).unwrap();
    let messages = run(&mut parser, &MAGIC);
    assert_eq!(messages.len(), 1);
    assert!(matches!(messages[0], Err(ULogError::InvalidHeader)));
}

#[test]
fn file_ending_inside_a_message_is_an_unexpected_end() {
    let mut file = header(1, 0);
    file.extend(message(b'Z', b"abcdef"));
    file.truncate(file.len() - 2);
    let mut parser = ULogParser::new(()).unwrap();
    let messages = run(&mut parser, &file);
    assert_eq!(messages.len(), 1);
    assert!(matches!(messages[0], Err(ULogError::UnexpectedEndOfFile)));
    assert_eq!(parser.bytes_wanted(), None);
}

#[test]
fn file_ending_between_messages_ends_cleanly() {
    let mut file = header(1, 0);
    file.extend(message(b'Z', b"abc"));
    file.push(7);
    let mut parser = ULogParser::new(()).unwrap();
    let messages = run(&mut parser, &file);
    assert_eq!(messages.len(), 1);
    assert!(messages[0].is_ok());
}

#[test]
fn data_of_unknown_subscription_is_an_error() {
    let mut file = header(1, 0);
    file.extend(message(b'F', b"m:uint64_t timestamp;"));
    let mut sub = vec![0u8];
    sub.extend_from_slice(&1u16.to_le_bytes());
    sub.extend_from_slice(b"m");
    file.extend(message(b'A', &sub));
    let mut data = 5u16.to_le_bytes().to_vec();
    data.extend_from_slice(&1u64.to_le_bytes());
    file.extend(message(b'D', &data));
    let mut parser = ULogParser::new(()).unwrap();
    let messages = run(&mut parser, &file);
    assert!(matches!(messages[2], Err(ULogError::ParseError(_))));
}

#[test]
fn subscription_to_unknown_format_is_an_error() {
    let mut file = header(1, 0);
    let mut sub = vec![0u8];
    sub.extend_from_slice(&1u16.to_le_bytes());
    sub.extend_from_slice(b"nothing");
    file.extend(message(b'A', &sub));
    let mut parser = ULogParser::new(()).unwrap();
    let messages = run(&mut parser, &file);
    assert!(matches!(messages[0], Err(ULogError::UndefinedFormat(_))));
}

#[test]
fn format_without_timestamp_gives_missing_timestamp() {
    let mut file = header(1, 0);
    file.extend(message(b'F', b"m:uint8_t a;"));
    let mut sub = vec![0u8];
    sub.extend_from_slice(&1u16.to_le_bytes());
    sub.extend_from_slice(b"m");
    file.extend(message(b'A', &sub));
    let mut data = 1u16.to_le_bytes().to_vec();
    data.push(3);
    file.extend(message(b'D', &data));
    let mut parser = ULogParser::new(()).unwrap();
    let messages = run(&mut parser, &file);
    assert!(matches!(messages[2], Err(ULogError::MissingTimestamp)));
}

#[test]
fn multi_id_subscriptions_mark_their_data() {
    let mut file = header(1, 0);
    file.extend(message(b'F', b"m:uint64_t timestamp;"));
    let mut sub = vec![2u8];
    sub.extend_from_slice(&4u16.to_le_bytes());
    sub.extend_from_slice(b"m");
    file.extend(message(b'A', &sub));
    let mut data = 4u16.to_le_bytes().to_vec();
    data.extend_from_slice(&77u64.to_le_bytes());
    file.extend(message(b'D', &data));
    let mut parser = ULogParser::new(()).unwrap();
    let messages = run(&mut parser, &file);
    match &messages[2] {
        Ok(UlogMessage::LoggedData(d)) => {
            assert_eq!(d.timestamp, 77);
            assert_eq!(d.data.multi_id_index, Some(2));
        }
        other => panic!("unexpected {:?}", other),
    }
}

#[test]
fn appended_data_ends_the_log() {
    let mut file = header(1, 0);
    let mut flags = vec![0u8; 40];
    flags[8] = 1; // data appended
    let end = (16 + 3 + 40 + 3 + 3) as u64;
    flags[16..24].copy_from_slice(&end.to_le_bytes());
    file.extend(message(b'B', &flags));
    file.extend(message(b'Z', b"abc"));
    file.extend(message(b'Z', b"not read"));
    let mut parser = ULogParser::new(()).unwrap();
    let messages = run(&mut parser, &file);
    assert_eq!(messages.len(), 2);
}

#[test]
fn appended_flag_without_an_offset_reads_on() {
    let mut file = header(1, 0);
    let mut flags = vec![0u8; 40];
    flags[8] = 1; // data appended, but every offset is zero
    file.extend(message(b'B', &flags));
    file.extend(message(b'Z', b"abc"));
    file.extend(message(b'Z', b"read too"));
    let mut parser = ULogParser::new(()).unwrap();
    let messages = run(&mut parser, &file);
    assert_eq!(messages.len(), 3);
}

#[test]
fn unknown_incompatible_bits_are_refused() {
    let mut file = header(1, 0);
    let mut flags = vec![0u8; 40];
    flags[9] = 1;
    file.extend(message(b'B', &flags));
    let mut parser = ULogParser::new(()).unwrap();
    let messages = run(&mut parser, &file);
    assert!(matches!(messages[0], Err(ULogError::UnknownIncompatBits)));
}

#[test]
fn nested_formats_and_arrays_of_them_are_decoded() {
    let mut file = header(1, 0);
    file.extend(message(b'F', b"inner:uint16_t a;"));
    file.extend(message(b'F', b"outer:uint64_t timestamp;inner one;inner[2] two;"));
    let mut sub = vec![0u8];
    sub.extend_from_slice(&3u16.to_le_bytes());
    sub.extend_from_slice(b"outer");
    file.extend(message(b'A', &sub));
    let mut data = 3u16.to_le_bytes().to_vec();
    data.extend_from_slice(&9u64.to_le_bytes());
    for v in [10u16, 11, 12] {
        data.extend_from_slice(&v.to_le_bytes());
    }
    file.extend(message(b'D', &data));
    let mut parser = ULogParserBuilder::new(()).include_timestamp(true).build().unwrap();
    let messages = run(&mut parser, &file);
    match &messages[3] {
        Ok(UlogMessage::LoggedData(d)) => {
            assert_eq!(d.data.fields.len(), 3);
            match &d.data.fields[1].value {
                FieldValue::ScalarOther(f) => assert_eq!(f.fields[0].value, FieldValue::ScalarU16(10)),
                other => panic!("unexpected {:?}", other),
            }
            match &d.data.fields[2].value {
                FieldValue::ArrayOther(fs) => {
                    assert_eq!(fs.len(), 2);
                    assert_eq!(fs[1].fields[0].value, FieldValue::ScalarU16(12));
                }
                other => panic!("unexpected {:?}", other),
            }
            let mut emitted = Vec::new();
            d.encode(&mut emitted);
            assert_eq!(emitted, data);
        }
        other => panic!("unexpected {:?}", other),
    }
}

#[test]
fn a_format_that_contains_itself_is_a_parse_error() {
    let mut file = header(1, 0);
    file.extend(message(b'F', b"loop:uint64_t timestamp;loop again;"));
    let mut sub = vec![0u8];
    sub.extend_from_slice(&1u16.to_le_bytes());
    sub.extend_from_slice(b"loop");
    file.extend(message(b'A', &sub));
    let mut data = 1u16.to_le_bytes().to_vec();
    data.extend_from_slice(&[0u8; 64]);
    file.extend(message(b'D', &data));
    let mut parser = ULogParser::new(()).unwrap();
    let messages = run(&mut parser, &file);
    assert!(matches!(messages[2], Err(ULogError::ParseError(_))));
}

#[test]
fn removed_subscriptions_are_forgotten() {
    let mut file = header(1, 0);
    file.extend(message(b'F', b"m:uint64_t timestamp;"));
    let mut sub = vec![0u8];
    sub.extend_from_slice(&1u16.to_le_bytes());
    sub.extend_from_slice(b"m");
    file.extend(message(b'A', &sub));
    file.extend(message(b'R', &1u16.to_le_bytes()));
    let mut data = 1u16.to_le_bytes().to_vec();
    data.extend_from_slice(&1u64.to_le_bytes());
    file.extend(message(b'D', &data));
    let mut parser = ULogParser::new(()).unwrap();
    let messages = run(&mut parser, &file);
    assert!(matches!(messages[3], Err(ULogError::ParseError(_))));
    assert!(parser.get_subscription(1).is_err());
}

#[test]
fn parameters_must_be_int32_or_float() {
    let mut file = header(1, 0);
    let mut arr = key("int32_t[2] P");
    arr.extend_from_slice(&[0u8; 8]);
    file.extend(message(b'P', &arr));
    let mut dbl = key("double P");
    dbl.extend_from_slice(&[0u8; 8]);
    file.extend(message(b'P', &dbl));
    let mut def = vec![1u8];
    def.extend(key("float P"));
    def.extend_from_slice(&2.5f32.to_le_bytes());
    file.extend(message(b'Q', &def));
    let mut parser = ULogParser::new(()).unwrap();
    let messages = run(&mut parser, &file);
    assert!(matches!(messages[0], Err(ULogError::UnknownParameterType(_))));
    assert!(matches!(messages[1], Err(ULogError::UnknownParameterType(_))));
    match &messages[2] {
        Ok(UlogMessage::DefaultParameter(p)) => {
            assert_eq!(p.default_types, 1);
            assert_eq!(p.value, ParameterValue::FLOAT(2.5f32.to_bits()));
        }
        other => panic!("unexpected {:?}", other),
    }
}

#[test]
fn a_failed_read_in_the_header_makes_the_header_invalid() {
    let mut parser = ULogParser::new(()).unwrap();
    assert_eq!(parser.bytes_wanted(), Some(16));
    let e = parser.fail_read(std::io::Error::new(std::io::ErrorKind::Other, "disk"));
    assert!(matches!(e, ULogError::InvalidHeader));
}

#[test]
fn a_failed_read_inside_a_message_drops_it() {
    let mut parser = ULogParser::new(()).unwrap();
    assert_eq!(parser.bytes_wanted(), Some(16));
    assert!(parser.supply(header(1, 0)).unwrap().is_none());
    assert_eq!(parser.bytes_wanted(), Some(2));
    assert!(parser.supply(5u16.to_le_bytes().to_vec()).unwrap().is_none());
    assert_eq!(parser.bytes_wanted(), Some(1));
    let e = parser.fail_read(std::io::Error::new(std::io::ErrorKind::Other, "disk"));
    assert!(matches!(e, ULogError::Io(_)));
    assert_eq!(parser.bytes_wanted(), Some(2));
}

#[test]
fn the_file_stays_over_once_it_ended() {
    let mut parser = ULogParser::new(()).unwrap();
    let _ = run(&mut parser, &header(1, 0));
    assert_eq!(parser.bytes_wanted(), None);
    assert!(parser.supply(vec![1, 2, 3]).unwrap().is_none());
    assert_eq!(parser.bytes_wanted(), None);
}

#[test]
fn a_bool_byte_other_than_0_or_1_is_written_back_as_1() {
    let mut file = header(1, 0);
    file.extend(message(b'F', b"m:uint64_t timestamp;bool b;"));
    let mut sub = vec![0u8];
    sub.extend_from_slice(&1u16.to_le_bytes());
    sub.extend_from_slice(b"m");
    file.extend(message(b'A', &sub));
    let mut data = 1u16.to_le_bytes().to_vec();
    data.extend_from_slice(&5u64.to_le_bytes());
    data.push(2);
    file.extend(message(b'D', &data));
    let mut parser = ULogParserBuilder::new(()).include_timestamp(true).include_padding(true).build().unwrap();
    let messages = run(&mut parser, &file);
    let d = messages[2].as_ref().unwrap();
    let mut emitted = Vec::new();
    d.encode(&mut emitted);
    let mut expected = message(b'D', &data);
    *expected.last_mut().unwrap() = 1;
    assert_eq!(emitted, expected);
}

#[test]
fn parsed_data_flattens() {
    let mut file = header(1, 0);
    file.extend(message(b'F', b"m:uint64_t timestamp;uint8_t[2] xs;"));
    let mut sub = vec![0u8];
    sub.extend_from_slice(&1u16.to_le_bytes());
    sub.extend_from_slice(b"m");
    file.extend(message(b'A', &sub));
    let mut data = 1u16.to_le_bytes().to_vec();
    data.extend_from_slice(&5u64.to_le_bytes());
    data.extend_from_slice(&[7, 8]);
    file.extend(message(b'D', &data));
    let mut parser = ULogParser::new(()).unwrap();
    let messages = run(&mut parser, &file);
    match &messages[2] {
        Ok(UlogMessage::LoggedData(d)) => {
            #[allow(deprecated)]
            let flat = d.data.flatten();
            assert_eq!(flat.len(), 2);
            assert_eq!(flat[0].0, "m/xs.00");
            assert_eq!(flat[1].1, FieldValue::ScalarU8(8));
        }
        other => panic!("unexpected {:?}", other),
    }
}
