use lib::checksums::crc32;
use lib::frame::{
    build_frame, can_build, inspect_frame, pack_field, ChecksumKind, FieldKind, FieldSpec, FieldValue, FrameSpec,
};
use lib::frame_text::parse_frame_format;

#[test]
fn u16_endianness_packs_in_the_declared_byte_order() {
    let mut le = Vec::new();
    pack_field(FieldKind::U16Le, &FieldValue::Number(0x1234), &mut le).unwrap();
    assert_eq!(le, vec![0x34, 0x12]);

    let mut be = Vec::new();
    pack_field(FieldKind::U16Be, &FieldValue::Number(0x1234), &mut be).unwrap();
    assert_eq!(be, vec![0x12, 0x34]);
}

#[test]
fn u32_endianness_packs_in_the_declared_byte_order() {
    let mut le = Vec::new();
    pack_field(FieldKind::U32Le, &FieldValue::Number(0x0102_0304), &mut le).unwrap();
    assert_eq!(le, vec![0x04, 0x03, 0x02, 0x01]);

    let mut be = Vec::new();
    pack_field(FieldKind::U32Be, &FieldValue::Number(0x0102_0304), &mut be).unwrap();
    assert_eq!(be, vec![0x01, 0x02, 0x03, 0x04]);
}

fn boot_status_spec() -> FrameSpec {
    FrameSpec {
        fields: vec![
            FieldSpec { name: "version".to_string(), kind: FieldKind::U8 },
            FieldSpec { name: "length".to_string(), kind: FieldKind::U16Be },
            FieldSpec { name: "device_id".to_string(), kind: FieldKind::Bytes(4) },
        ],
        checksum: ChecksumKind::Crc32,
    }
}

#[test]
fn build_frame_trailer_matches_the_real_crc32_of_the_payload() {
    let spec = boot_status_spec();
    let values = vec![FieldValue::Number(1), FieldValue::Number(9), FieldValue::Bytes(vec![0xde, 0xad, 0xbe, 0xef])];
    let frame = build_frame(&spec, &values).unwrap();
    assert_eq!(frame.len(), 7 + 4);
    let payload = &frame[..7];
    let trailer = &frame[7..];
    assert_eq!(trailer, crc32(payload).to_be_bytes());
}

#[test]
fn a_built_frame_inspects_back_to_the_same_field_values_with_a_valid_checksum() {
    let spec = boot_status_spec();
    let values = vec![FieldValue::Number(1), FieldValue::Number(9), FieldValue::Bytes(vec![0xde, 0xad, 0xbe, 0xef])];
    let frame = build_frame(&spec, &values).unwrap();
    let inspected = inspect_frame(&spec, &frame).unwrap();
    assert!(inspected.checksum_ok);
    assert_eq!(inspected.fields, vec![
        ("version".to_string(), FieldValue::Number(1)),
        ("length".to_string(), FieldValue::Number(9)),
        ("device_id".to_string(), FieldValue::Bytes(vec![0xde, 0xad, 0xbe, 0xef])),
    ]);
}

#[test]
fn a_corrupted_trailer_is_caught_not_silently_accepted() {
    let spec = boot_status_spec();
    let values = vec![FieldValue::Number(1), FieldValue::Number(9), FieldValue::Bytes(vec![0xde, 0xad, 0xbe, 0xef])];
    let mut frame = build_frame(&spec, &values).unwrap();
    *frame.last_mut().unwrap() ^= 0x01;
    let inspected = inspect_frame(&spec, &frame).unwrap();
    assert!(!inspected.checksum_ok);
    assert_eq!(inspected.fields[0], ("version".to_string(), FieldValue::Number(1)));
}

#[test]
fn inspect_frame_rejects_the_wrong_total_length() {
    let spec = boot_status_spec();
    let err = inspect_frame(&spec, &[0u8; 3]).unwrap_err();
    assert!(err.contains("expected 11"), "error should name the expected length: {err}");
}

#[test]
fn parse_frame_format_reads_a_real_declaration() {
    let text = "\
# boot-status header
field,u8,version
field,u16be,length
field,bytes4,device_id
checksum,crc32

frame,boot-status-ok
version=1
length=9
device_id=deadbeef
";
    let (spec, frames) = parse_frame_format(text).unwrap();
    assert_eq!(spec, boot_status_spec());
    assert_eq!(frames.len(), 1);
    assert_eq!(frames[0].label, "boot-status-ok");
    assert_eq!(
        frames[0].values,
        vec![FieldValue::Number(1), FieldValue::Number(9), FieldValue::Bytes(vec![0xde, 0xad, 0xbe, 0xef])]
    );
}

#[test]
fn parse_frame_format_accepts_hex_numeric_values() {
    let text = "field,u16be,x\nchecksum,crc32\nframe,f\nx=0x00ff\n";
    let (_, frames) = parse_frame_format(text).unwrap();
    assert_eq!(frames[0].values, vec![FieldValue::Number(255)]);
}

#[test]
fn parse_frame_format_rejects_a_missing_field_value() {
    let text = "field,u8,version\nfield,u16be,length\nchecksum,crc32\nframe,f\nversion=1\n";
    let err = parse_frame_format(text).unwrap_err();
    assert!(err.contains("length"), "error should name the missing field: {err}");
}

#[test]
fn parse_frame_format_rejects_a_missing_checksum_line() {
    let text = "field,u8,version\nframe,f\nversion=1\n";
    let err = parse_frame_format(text).unwrap_err();
    assert!(err.contains("checksum"), "error should name what's missing: {err}");
}

#[test]
fn pack_field_explains_every_rejection() {
    let mut out = vec![7u8];
    assert_eq!(pack_field(FieldKind::U8, &FieldValue::Number(256), &mut out).unwrap_err(), "256 doesn't fit in u8");
    assert_eq!(pack_field(FieldKind::U16Le, &FieldValue::Number(70000), &mut out).unwrap_err(), "70000 doesn't fit in u16");
    assert_eq!(pack_field(FieldKind::U32Be, &FieldValue::Number(1 << 32), &mut out).unwrap_err(), "4294967296 doesn't fit in u32");
    assert_eq!(pack_field(FieldKind::Bytes(2), &FieldValue::Bytes(vec![1]), &mut out).unwrap_err(), "expected 2 byte(s), got 1");
    assert_eq!(pack_field(FieldKind::Bytes(2), &FieldValue::Number(3), &mut out).unwrap_err(), "field kind Bytes(2) can't hold value Number(3)");
    assert_eq!(pack_field(FieldKind::U8, &FieldValue::Bytes(vec![1, 20]), &mut out).unwrap_err(), "field kind U8 can't hold value Bytes([1, 20])");
    assert_eq!(out, vec![7u8]);
}

#[test]
fn build_frame_names_the_failing_field_and_the_count() {
    let spec = boot_status_spec();
    assert_eq!(build_frame(&spec, &[FieldValue::Number(1)]).unwrap_err(), "expected 3 field value(s), got 1");
    let values = vec![FieldValue::Number(1), FieldValue::Number(1 << 20), FieldValue::Bytes(vec![0; 4])];
    assert_eq!(build_frame(&spec, &values).unwrap_err(), "field \"length\": 1048576 doesn't fit in u16");
}

#[test]
fn every_checksum_kind_builds_a_trailer_of_its_width() {
    for (kind, width) in [(ChecksumKind::Crc32, 4), (ChecksumKind::Crc16Xmodem, 2), (ChecksumKind::Crc16Modbus, 2), (ChecksumKind::InternetChecksum, 2)] {
        let spec = FrameSpec { fields: vec![FieldSpec { name: "a".to_string(), kind: FieldKind::U32Le }], checksum: kind };
        let frame = build_frame(&spec, &[FieldValue::Number(0xA1B2_C3D4)]).unwrap();
        assert_eq!(frame.len(), 4 + width);
        assert_eq!(&frame[..4], &[0xD4, 0xC3, 0xB2, 0xA1]);
        assert_eq!(frame[4..].to_vec(), kind.compute(&frame[..4]));
        let inspected = inspect_frame(&spec, &frame).unwrap();
        assert!(inspected.checksum_ok);
        assert_eq!(inspected.fields, vec![("a".to_string(), FieldValue::Number(0xA1B2_C3D4))]);
    }
    assert_eq!(ChecksumKind::InternetChecksum.compute(&[0x00, 0x01]), vec![0xFF, 0xFE]);
}

#[test]
fn parse_frame_format_messages_follow_each_rule() {
    assert_eq!(parse_frame_format("field,u8\n").unwrap_err(), "line 1: expected \"field,kind,name\", got \"field,u8\"");
    assert_eq!(parse_frame_format("field,u9,x\n").unwrap_err(), "line 1: unknown field kind \"u9\"");
    assert_eq!(parse_frame_format("field,bytesx,x\n").unwrap_err(), "line 1: invalid field kind \"bytesx\"");
    assert_eq!(parse_frame_format("checksum,crc32\nchecksum,crc32\n").unwrap_err(), "line 2: checksum declared more than once");
    assert_eq!(parse_frame_format("checksum,md5\n").unwrap_err(), "line 1: unknown checksum kind \"md5\"");
    assert_eq!(parse_frame_format("a=1\n").unwrap_err(), "line 1: \"a=1\" outside any \"frame,<label>\" block");
    assert_eq!(parse_frame_format("frame,f\nnope\n").unwrap_err(), "line 2: expected \"key=value\", got \"nope\"");
    assert_eq!(parse_frame_format("checksum,crc32\n").unwrap_err(), "no \"field,...\" lines declared");
    assert_eq!(
        parse_frame_format("field,bytes2,id\nchecksum,crc32\nframe,f\nid=abc\n").unwrap_err(),
        "frame \"f\", field \"id\": expected 4 hex chars for a 2-byte field, got 3"
    );
    assert_eq!(
        parse_frame_format("field,bytes1,id\nchecksum,crc32\nframe,f\nid=zz\n").unwrap_err(),
        "frame \"f\", field \"id\": invalid hex byte \"zz\""
    );
    assert_eq!(
        parse_frame_format("field,u8,v\nchecksum,crc32\nframe,f\nv=0xg\n").unwrap_err(),
        "frame \"f\", field \"v\": invalid hex number \"0xg\""
    );
    assert_eq!(
        parse_frame_format("field,u8,v\nchecksum,crc32\nframe,f\nv=-1\n").unwrap_err(),
        "frame \"f\", field \"v\": invalid number \"-1\""
    );
}

#[test]
fn a_frame_reads_the_fields_declared_before_it_ends_and_the_first_key_wins() {
    // a frame is finished when the next one starts, so it reads every
    // field declared up to that point.
    let text = "field,u8,a\nchecksum,crc16-modbus\nframe,one\na=1\na=2\nb=5\nfield,u32le,b\nframe,two\nb = 0x10 \na= 3\n";
    let (spec, frames) = parse_frame_format(text).unwrap();
    assert_eq!(spec.fields.len(), 2);
    assert_eq!(spec.checksum, ChecksumKind::Crc16Modbus);
    assert_eq!(frames[0].values, vec![FieldValue::Number(1), FieldValue::Number(5)]);
    assert_eq!(frames[1].values, vec![FieldValue::Number(3), FieldValue::Number(16)]);
}

#[test]
fn a_hex_pair_may_carry_a_plus_sign() {
    let (_, frames) = parse_frame_format("field,bytes2,id\nchecksum,crc32\nframe,f\nid=+fA0\n").unwrap();
    assert_eq!(frames[0].values, vec![FieldValue::Bytes(vec![0x0f, 0xa0])]);
}

#[test]
fn malformed_hex_and_huge_widths_are_errors() {
    let split = "field,bytes2,x\nchecksum,crc32\nframe,f\nx=a\u{e9}b\n";
    assert_eq!(parse_frame_format(split).unwrap_err(), "frame \"f\", field \"x\": invalid hex byte \"a\u{e9}\"");
    let lead = "field,bytes2,x\nchecksum,crc32\nframe,f\nx=\u{e9}ab\n";
    assert_eq!(parse_frame_format(lead).unwrap_err(), "frame \"f\", field \"x\": invalid hex byte \"\u{e9}\"");
    let wide = format!("field,bytes{},x\nchecksum,crc32\nframe,f\nx=00\n", usize::MAX);
    let twice = 2 * (usize::MAX as u128);
    assert_eq!(
        parse_frame_format(&wide).unwrap_err(),
        format!("frame \"f\", field \"x\": expected {twice} hex chars for a {}-byte field, got 2", usize::MAX)
    );
    let fine = "field,bytes2,x\nchecksum,crc32\nframe,f\nx=abcd\n";
    let (_, frames) = parse_frame_format(fine).unwrap();
    assert_eq!(frames[0].values, vec![FieldValue::Bytes(vec![0xab, 0xcd])]);
}

#[test]
fn can_build_refuses_only_an_oversized_width() {
    let spec = boot_status_spec();
    let values = vec![FieldValue::Number(1), FieldValue::Number(2), FieldValue::Bytes(vec![1, 2, 3, 4])];
    assert!(can_build(&spec, &values));
    assert!(can_build(&spec, &values[..1]));

    let wide = FrameSpec {
        fields: vec![
            FieldSpec { name: "a".to_string(), kind: FieldKind::Bytes(isize::MAX as usize) },
            FieldSpec { name: "b".to_string(), kind: FieldKind::U8 },
        ],
        checksum: ChecksumKind::Crc32,
    };
    assert!(!can_build(&wide, &[FieldValue::Bytes(vec![]), FieldValue::Number(0)]));

    let words: usize = 65_538;
    let heavy = FrameSpec {
        fields: vec![FieldSpec { name: "blob".to_string(), kind: FieldKind::Bytes(2 * words) }],
        checksum: ChecksumKind::InternetChecksum,
    };
    let blob = vec![FieldValue::Bytes(vec![0xff; 2 * words])];
    assert!(can_build(&heavy, &blob));
    let frame = build_frame(&heavy, &blob).unwrap();
    assert_eq!(&frame[2 * words..], &[0x00, 0x00]);
    assert!(inspect_frame(&heavy, &frame).unwrap().checksum_ok);
}

