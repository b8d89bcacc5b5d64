use memscan::data_types::{ByteOrder, DataType, Endianness};
use memscan::error::{AppError, EPERM, ESRCH};
use memscan::value::WrappedValue;

#[test]
fn sizes() {
    assert_eq!(DataType::U8.size(), 1);
    assert_eq!(DataType::U16.size(), 2);
    assert_eq!(DataType::U32.size(), 4);
    assert_eq!(DataType::U64.size(), 8);
    assert_eq!(DataType::F32.size(), 4);
    assert_eq!(DataType::F64.size(), 8);
    assert_eq!(DataType::default(), DataType::U64);
    assert_eq!(Endianness::default(), Endianness::Native);
}

#[test]
fn parse_integers() {
    assert_eq!(DataType::U8.parse("255").unwrap(), WrappedValue::U8(255));
    assert_eq!(DataType::U16.parse("+513").unwrap(), WrappedValue::U16(513));
    assert_eq!(DataType::U32.parse("007").unwrap(), WrappedValue::U32(7));
    assert_eq!(DataType::U64.parse("18446744073709551615").unwrap(), WrappedValue::U64(u64::MAX));
}

#[test]
fn parse_errors() {
    for (t, text) in [
        (DataType::U8, "256"),
        (DataType::U8, ""),
        (DataType::U16, "-1"),
        (DataType::U32, "12a"),
        (DataType::U32, " 1"),
        (DataType::U64, "+"),
        (DataType::U64, "18446744073709551616"),
    ] {
        match t.parse(text) {
            Err(AppError::DataTypeParseError(message)) => assert!(!message.is_empty()),
            other => panic!("{:?} {:?} gave {:?}", t, text, other),
        }
    }
}

#[test]
fn format_then_parse_round_trip() {
    for v in [
        WrappedValue::U8(0),
        WrappedValue::U8(200),
        WrappedValue::U16(65535),
        WrappedValue::U32(123456789),
        WrappedValue::U64(0xDEAD_BEEF),
        WrappedValue::U64(u64::MAX),
    ] {
        let text = v.to_text();
        assert_eq!(v.data_type().parse(&text).unwrap(), v);
    }
    assert_eq!(WrappedValue::U32(4096).to_text(), "4096");
    assert_eq!(WrappedValue::U8(0).to_text(), "0");
}

#[test]
fn cast_reads_leading_bytes() {
    let buf = [0x01u8, 0x02, 0x03, 0x04, 0xff];
    assert_eq!(DataType::U16.cast(&buf, Endianness::Little).unwrap(), WrappedValue::U16(0x0201));
    assert_eq!(DataType::U16.cast(&buf, Endianness::Big).unwrap(), WrappedValue::U16(0x0102));
    assert_eq!(DataType::U32.cast_in(&buf, ByteOrder::Little).unwrap(), WrappedValue::U32(0x0403_0201));
    assert_eq!(DataType::U8.cast(&buf, Endianness::Native).unwrap(), WrappedValue::U8(1));
    let f = 1.5f32.to_ne_bytes();
    assert_eq!(DataType::F32.cast(&f, Endianness::Native).unwrap(), WrappedValue::F32(1.5f32.to_bits()));
    assert!(matches!(DataType::U64.cast(&buf, Endianness::Native), Err(AppError::BufferTooSmall)));
    assert!(matches!(DataType::F64.cast(&[], Endianness::Little), Err(AppError::BufferTooSmall)));
}

#[test]
fn compare_is_bit_exact() {
    let v = WrappedValue::U32(0x0102_0304);
    assert!(v.compare_to(&0x0102_0304u32.to_le_bytes(), Endianness::Little));
    assert!(!v.compare_to(&0x0102_0304u32.to_le_bytes(), Endianness::Big));
    assert!(v.compare_to(&0x0102_0304u32.to_be_bytes(), Endianness::Big));
    assert!(v.compare_to(&0x0102_0304u32.to_ne_bytes(), Endianness::Native));
    assert!(!v.compare_to(&[1, 2, 3], Endianness::Native));
    let nan = WrappedValue::F64(f64::NAN.to_bits());
    assert!(nan.compare_to(&f64::NAN.to_ne_bytes(), Endianness::Native));
    let zero = WrappedValue::F32(0.0f32.to_bits());
    assert!(!zero.compare_to(&(-0.0f32).to_ne_bytes(), Endianness::Native));
}

#[test]
fn scan_memory_lists_every_lane_match() {
    let buf: Vec<u8> = [7u16, 1, 7, 7, 3].iter().flat_map(|v| v.to_le_bytes()).collect();
    assert_eq!(WrappedValue::U16(7).scan_memory(&buf, Endianness::Little), vec![0, 4, 6]);
    assert_eq!(WrappedValue::U16(7).scan_in(&buf, ByteOrder::Big), Vec::<usize>::new());
    assert_eq!(WrappedValue::U8(7).scan_memory(&buf, Endianness::Native), vec![0, 4, 6]);
}

#[test]
fn errno_mapping() {
    assert!(matches!(AppError::from_errno(EPERM), AppError::PermissionDenied));
    assert!(matches!(AppError::from_errno(ESRCH), AppError::ProcessNotFound));
    assert!(matches!(AppError::from_errno(14), AppError::Errno(14)));
}
