use amqp_core::error::{DecodeError, EncodeError};
use amqp_core::frame::{
    decode_frame, encode_frame, encode_method_frame, encode_protocol_header, FrameDecode,
    FrameHeader, FrameType,
};
use amqp_core::method::{decode_method, encode_method, Method, Start, StartOk};
use amqp_core::table::{is_well_formed_table, same_bytes, scan_entry, width_of, FieldTable};
use amqp_core::wire::{
    copy_range, put_bytes, put_u16, put_u32, read_u16, read_u32, take_long_string,
    take_short_string,
};

#[test]
fn integers_are_big_endian() {
    let mut out = Vec::new();
    put_u16(&mut out, 0x1234);
    put_u32(&mut out, 0x89ab_cdef);
    put_u16(&mut out, 0);
    put_u32(&mut out, u32::MAX);
    assert_eq!(out, [0x12, 0x34, 0x89, 0xab, 0xcd, 0xef, 0, 0, 0xff, 0xff, 0xff, 0xff]);
    assert_eq!(read_u16(&out, 0), 0x1234);
    assert_eq!(read_u32(&out, 2), 0x89ab_cdef);
    assert_eq!(read_u16(&out, 6), 0);
    assert_eq!(read_u32(&out, 8), u32::MAX);
    assert_eq!(read_u16(&out, 1), 0x3489);
}

#[test]
fn bytes_are_appended_and_copied() {
    let mut out = vec![1u8];
    put_bytes(&mut out, &[2, 3]);
    put_bytes(&mut out, &[]);
    assert_eq!(out, [1, 2, 3]);
    assert_eq!(copy_range(&out, 1, 3), [2, 3]);
    assert_eq!(copy_range(&out, 2, 2), Vec::<u8>::new());
}

#[test]
fn strings_are_taken_whole_or_not_at_all() {
    let data = [9, 2, b'h', b'i', 0, 0, 0, 3, b'a', b'b', b'c'];
    assert_eq!(take_short_string(&data, 1), Some(b"hi".to_vec()));
    assert_eq!(take_long_string(&data, 4), Some(b"abc".to_vec()));
    assert_eq!(take_short_string(&data, 4), Some(vec![]));
    assert_eq!(take_short_string(&data, 0), Some(data[1..10].to_vec()));
    assert_eq!(take_short_string(&data, 7), Some(b"abc".to_vec()));
    assert_eq!(take_short_string(&data, 8), None);
    assert_eq!(take_short_string(&data, 11), None);
    assert_eq!(take_short_string(&data, 12), None);
    assert_eq!(take_long_string(&data, 5), None);
    assert_eq!(take_long_string(&data, 8), None);
    assert_eq!(take_long_string(&data, 11), None);
    assert_eq!(take_long_string(&[0, 0, 0, 0], 0), Some(vec![]));
}

#[test]
fn the_protocol_header_names_version_0_9_1() {
    assert_eq!(encode_protocol_header(), b"AMQP\x00\x00\x09\x01");
}

#[test]
fn a_table_entry_is_name_tag_value() {
    let mut table = FieldTable::new();
    assert_eq!(table.as_bytes(), b"");
    assert!(table.insert_long_string(b"product", b"lapin"));
    assert_eq!(table.as_bytes(), b"\x07productS\x00\x00\x00\x05lapin");
    assert!(table.insert_long_string(b"", b""));
    assert_eq!(table.as_bytes(), b"\x07productS\x00\x00\x00\x05lapin\x00S\x00\x00\x00\x00");
}

#[test]
fn a_table_refuses_a_name_that_is_too_long() {
    let mut table = FieldTable::new();
    assert!(table.insert_long_string(&[b'n'; 255], b"v"));
    let before = table.clone();
    assert!(!table.insert_long_string(&[b'n'; 256], b"v"));
    assert_eq!(table, before);
}

#[test]
fn a_table_answers_with_the_first_entry_of_a_name() {
    let mut table = FieldTable::new();
    assert_eq!(table.get(b"product"), None);
    assert!(table.insert_long_string(b"product", b"lapin"));
    assert!(table.insert_long_string(b"version", b"1"));
    assert!(table.insert_long_string(b"product", b"other"));
    assert_eq!(table.get(b"product"), Some((b'S', b"\x00\x00\x00\x05lapin".to_vec())));
    assert_eq!(table.get(b"version"), Some((b'S', b"\x00\x00\x00\x011".to_vec())));
    assert_eq!(table.get(b"produc"), None);
    assert_eq!(table.get(b""), None);
}

#[test]
fn a_table_is_checked_entry_by_entry() {
    let good: &[u8] = b"\x01at\x01\x01bI\x00\x00\x00\x07\x01cF\x00\x00\x00\x02xy\x01dV\x01eD\x02\x00\x00\x00\x01\x01fT\x00\x00\x00\x00\x00\x00\x00\x01\x01gs\xff\xfe";
    assert!(is_well_formed_table(good));
    assert!(is_well_formed_table(b""));
    let table = FieldTable::from_bytes(good.to_vec()).unwrap();
    assert_eq!(table.as_bytes(), good);
    assert_eq!(table.get(b"a"), Some((b't', vec![1])));
    assert_eq!(table.get(b"b"), Some((b'I', vec![0, 0, 0, 7])));
    assert_eq!(table.get(b"c"), Some((b'F', vec![0, 0, 0, 2, b'x', b'y'])));
    assert_eq!(table.get(b"d"), Some((b'V', vec![])));
    assert_eq!(table.get(b"e"), Some((b'D', vec![2, 0, 0, 0, 1])));
    assert_eq!(table.get(b"g"), Some((b's', vec![0xff, 0xfe])));

    assert!(!is_well_formed_table(b"\x01a"));
    assert!(!is_well_formed_table(b"\x01at"));
    assert!(!is_well_formed_table(b"\x01a?\x00"));
    assert!(!is_well_formed_table(b"\x01aS\x00\x00\x00\x05lapi"));
    assert!(!is_well_formed_table(b"\x01aS\x00\x00"));
    assert!(!is_well_formed_table(b"\x05a"));
    assert!(!is_well_formed_table(b"\x01at\x01\x01"));
    assert_eq!(FieldTable::from_bytes(b"\x01at".to_vec()), None);
}

#[test]
fn the_tag_decides_the_width_of_a_plain_value() {
    assert_eq!(width_of(b'V'), Some(0));
    for tag in [b't', b'b', b'B'] {
        assert_eq!(width_of(tag), Some(1));
    }
    for tag in [b's', b'U', b'u'] {
        assert_eq!(width_of(tag), Some(2));
    }
    for tag in [b'I', b'i', b'f'] {
        assert_eq!(width_of(tag), Some(4));
    }
    assert_eq!(width_of(b'D'), Some(5));
    for tag in [b'l', b'L', b'd', b'T'] {
        assert_eq!(width_of(tag), Some(8));
    }
    for tag in [b'S', b'A', b'F', b'x', b'?', 0, 255] {
        assert_eq!(width_of(tag), None);
    }
}

#[test]
fn an_entry_ends_behind_its_value() {
    let data = b"\x01at\x01\x02bcS\x00\x00\x00\x01z";
    assert_eq!(scan_entry(data, 0), Some(4));
    assert_eq!(scan_entry(data, 4), Some(13));
    assert_eq!(scan_entry(data, 13), None);
    assert_eq!(scan_entry(data, 1), None);
    assert_eq!(scan_entry(data, 100), None);
}

#[test]
fn same_bytes_compares_content() {
    assert!(same_bytes(b"", b""));
    assert!(same_bytes(b"abc", b"abc"));
    assert!(!same_bytes(b"abc", b"abd"));
    assert!(!same_bytes(b"abc", b"ab"));
    assert!(!same_bytes(b"", b"a"));
}

#[test]
fn a_frame_is_type_channel_size_payload_end() {
    assert_eq!(
        encode_frame(FrameType::Method, 0x0102, b"abc"),
        Ok(vec![1, 1, 2, 0, 0, 0, 3, b'a', b'b', b'c', 0xce])
    );
    assert_eq!(encode_frame(FrameType::Header, 0, b""), Ok(vec![2, 0, 0, 0, 0, 0, 0, 0xce]));
    assert_eq!(encode_frame(FrameType::Body, 1, b"x"), Ok(vec![3, 0, 1, 0, 0, 0, 1, b'x', 0xce]));
    assert_eq!(encode_frame(FrameType::Heartbeat, 0, b""), Ok(vec![8, 0, 0, 0, 0, 0, 0, 0xce]));
}

#[test]
fn a_frame_is_decoded_once_it_is_whole() {
    let frame = [1, 1, 2, 0, 0, 0, 3, b'a', b'b', b'c', 0xce, 8, 0];
    assert_eq!(decode_frame(&[]), FrameDecode::Incomplete);
    for len in 1..11 {
        assert_eq!(decode_frame(&frame[..len]), FrameDecode::Incomplete);
    }
    let header = FrameHeader { frame_type: FrameType::Method, channel_id: 0x0102, size: 3 };
    assert_eq!(decode_frame(&frame[..11]), FrameDecode::Decoded(header, 11));
    assert_eq!(decode_frame(&frame), FrameDecode::Decoded(header, 11));
    assert_eq!(decode_frame(&frame[11..]), FrameDecode::Incomplete);
    let heartbeat = FrameHeader { frame_type: FrameType::Heartbeat, channel_id: 0, size: 0 };
    assert_eq!(
        decode_frame(&[8, 0, 0, 0, 0, 0, 0, 0xce]),
        FrameDecode::Decoded(heartbeat, 8)
    );
}

#[test]
fn a_frame_with_a_wrong_type_or_end_is_malformed() {
    assert_eq!(decode_frame(&[0]), FrameDecode::Malformed(DecodeError::UnknownFrameType));
    assert_eq!(decode_frame(&[4, 0, 0]), FrameDecode::Malformed(DecodeError::UnknownFrameType));
    assert_eq!(
        decode_frame(&[1, 0, 0, 0, 0, 0, 1, b'a', 0xcf]),
        FrameDecode::Malformed(DecodeError::MissingFrameEnd)
    );
}

#[test]
fn a_method_that_is_not_decoded_keeps_its_bytes() {
    let method = Method::Other { class_id: 20, method_id: 11, arguments: vec![0, 0, 0, 0] };
    assert_eq!(encode_method(&method), Ok(vec![0, 20, 0, 11, 0, 0, 0, 0]));
    assert_eq!(decode_method(&[0, 20, 0, 11, 0, 0, 0, 0]), Ok(method.clone()));
    assert_eq!(
        encode_method_frame(7, &method),
        Ok(vec![1, 0, 7, 0, 0, 0, 8, 0, 20, 0, 11, 0, 0, 0, 0, 0xce])
    );
    assert_eq!(
        decode_method(&[0, 10, 0, 12]),
        Ok(Method::Other { class_id: 10, method_id: 12, arguments: vec![] })
    );
}

#[test]
fn start_ok_is_laid_out_field_by_field() {
    let mut client_properties = FieldTable::new();
    assert!(client_properties.insert_long_string(b"p", b"q"));
    let start_ok = Method::ConnectionStartOk(StartOk {
        client_properties,
        mechanism: b"PLAIN".to_vec(),
        response: b"\x00u\x00p".to_vec(),
        locale: b"en_US".to_vec(),
    });
    let payload = encode_method(&start_ok).unwrap();
    assert_eq!(
        payload,
        b"\x00\x0a\x00\x0b\x00\x00\x00\x08\x01pS\x00\x00\x00\x01q\x05PLAIN\x00\x00\x00\x04\x00u\x00p\x05en_US"
    );
    assert_eq!(decode_method(&payload), Ok(start_ok));
}

#[test]
fn start_round_trips_through_a_frame() {
    let mut server_properties = FieldTable::new();
    assert!(server_properties.insert_long_string(b"product", b"RabbitMQ"));
    let start = Method::ConnectionStart(Start {
        version_major: 0,
        version_minor: 9,
        server_properties,
        mechanisms: b"PLAIN AMQPLAIN".to_vec(),
        locales: b"en_US".to_vec(),
    });
    let mut bytes = encode_method_frame(0, &start).unwrap();
    bytes.extend_from_slice(&[1, 2, 3]);
    let (header, taken) = match decode_frame(&bytes) {
        FrameDecode::Decoded(header, taken) => (header, taken),
        other => panic!("no frame: {:?}", other),
    };
    assert_eq!(taken, bytes.len() - 3);
    assert_eq!(header.frame_type, FrameType::Method);
    assert_eq!(header.channel_id, 0);
    assert_eq!(decode_method(&bytes[7..7 + header.size as usize]), Ok(start));
}

#[test]
fn a_method_must_use_its_payload_up() {
    assert_eq!(decode_method(&[]), Err(DecodeError::MalformedMethod));
    assert_eq!(decode_method(&[0, 10, 0]), Err(DecodeError::MalformedMethod));
    assert_eq!(decode_method(&[0, 10, 0, 10]), Err(DecodeError::MalformedMethod));
    let start_ok: &[u8] = b"\x00\x0a\x00\x0b\x00\x00\x00\x00\x05PLAIN\x00\x00\x00\x00\x05en_US";
    assert!(decode_method(start_ok).is_ok());
    let mut longer = start_ok.to_vec();
    longer.push(0);
    assert_eq!(decode_method(&longer), Err(DecodeError::MalformedMethod));
    assert_eq!(
        decode_method(&start_ok[..start_ok.len() - 1]),
        Err(DecodeError::MalformedMethod)
    );
    let bad_table: &[u8] = b"\x00\x0a\x00\x0b\x00\x00\x00\x02\x01a\x05PLAIN\x00\x00\x00\x00\x05en_US";
    assert_eq!(decode_method(bad_table), Err(DecodeError::MalformedMethod));
}

#[test]
fn a_method_that_does_not_fit_is_not_encoded() {
    let too_long = Method::ConnectionStartOk(StartOk {
        client_properties: FieldTable::new(),
        mechanism: vec![b'x'; 256],
        response: vec![],
        locale: b"en_US".to_vec(),
    });
    assert_eq!(encode_method(&too_long), Err(EncodeError::Unencodable));
    assert_eq!(encode_method_frame(0, &too_long), Err(EncodeError::Unencodable));
    let longest = Method::ConnectionStartOk(StartOk {
        client_properties: FieldTable::new(),
        mechanism: vec![b'x'; 255],
        response: vec![],
        locale: vec![b'y'; 255],
    });
    assert!(encode_method(&longest).is_ok());
    let masked = Method::Other { class_id: 10, method_id: 10, arguments: vec![] };
    assert_eq!(encode_method(&masked), Err(EncodeError::Unencodable));
    let masked = Method::Other { class_id: 10, method_id: 11, arguments: vec![] };
    assert_eq!(encode_method(&masked), Err(EncodeError::Unencodable));
}
