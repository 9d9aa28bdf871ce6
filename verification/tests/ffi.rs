use phoenix::ffi::{Be, CStrRef, Endian, Int128, InvalidVariantError, Le, PrimitiveEndian};

#[test]
fn good_strings() {
    let good_strings = [
        "\0",
        "foo\0",
        "string\0",
        "This is a sentence.\0",
        "bar\0",
        "$ymb0|5\0",
        "\x01\x02\x03\0"
    ];
    for &string in good_strings.iter() {
        let c_string = CStrRef::from_null_terminated_slice(string.as_bytes());
        assert!(c_string.is_some());
        let c_string = c_string.unwrap();
        assert_eq!(c_string.len(), string.len() - 1);
        let unchecked = CStrRef::from_null_terminated_slice_unchecked(string.as_bytes());
        assert!(c_string.eq(&unchecked));
        assert_eq!(c_string.as_bytes(), unchecked.as_bytes());
    }
}

#[test]
fn bad_strings() {
    let bad_strings = [
        "",
        "foo",
        "string",
        "This is a sentence.",
        "bar",
        "$ymb0|5",
        "\x01\x02\x03",
        "\0foo\0",
        "str\0ing\0",
        "This is\0a sentence.",
        "$\0ymb0|5\0",
        "\x01\x02\0\x03\0"
    ];
    for &string in bad_strings.iter() {
        let c_string = CStrRef::from_null_terminated_slice(string.as_bytes());
        assert!(c_string.is_none());
        // Even if the string can't be made safely, it still behaves as it would in C.
        if let Some(len) = string.find('\0') {
            let c_string = CStrRef::from_null_terminated_slice_unchecked(string.as_bytes());
            assert_eq!(c_string.as_bytes(), &string.as_bytes()[.. len]);
            assert_eq!(c_string.len(), len);
        }
    }
}

#[test]
fn c_string_views() {
    let c = CStrRef::from_null_terminated_slice(b"hello\0").unwrap();
    assert_eq!(c.as_bytes(), b"hello");
    assert_eq!(c.as_bytes_null_terminated(), b"hello\0");
    assert_eq!(c.len_capped(3), 3);
    assert_eq!(c.len_capped(10), 5);
    assert_eq!(c.as_bytes_capped(2), b"he");
    assert_eq!(c.as_str(), Ok("hello"));
    assert_eq!(c.as_str_capped(4), Ok("hell"));
    let mut it = c.iter();
    let mut collected = Vec::new();
    while let Some(b) = it.next() {
        collected.push(b);
    }
    assert_eq!(collected, b"hello".to_vec());
}

#[test]
fn c_string_invalid_utf8() {
    let c = CStrRef::from_null_terminated_slice(&[0x66, 0xff, 0x6f, 0]).unwrap();
    assert!(c.as_str().is_err());
    assert_eq!(c.as_str_capped(1), Ok("f"));
}

#[test]
fn c_strings_compare_by_content() {
    let a = CStrRef::from_null_terminated_slice_unchecked(b"abc\0xyz");
    let b = CStrRef::from_null_terminated_slice(b"abc\0").unwrap();
    let c = CStrRef::from_null_terminated_slice(b"abd\0").unwrap();
    assert!(a.eq(&b));
    assert!(!a.eq(&c));
}

#[test]
fn big_endian_round_trip() {
    let b = Be::<u32>::from_native(0x1234_5678);
    assert_eq!(b.into_native(), 0x1234_5678);
    let b = Be::<u16>::from_native(0xabcd);
    assert_eq!(b.into_native(), 0xabcd);
    let b = Be::<u64>::from_native(0x0102_0304_0506_0708);
    assert_eq!(b.into_native(), 0x0102_0304_0506_0708);
    let l = Le::<u32>::from_native(7);
    assert_eq!(l.into_native(), 7);
}

#[test]
fn byte_order_conversions() {
    assert_eq!(PrimitiveEndian::to_be(0x1234_5678u32), 0x7856_3412);
    assert_eq!(<u32 as PrimitiveEndian>::from_be(0x7856_3412), 0x1234_5678);
    assert_eq!(PrimitiveEndian::to_be(0x0102u16), 0x0201);
    assert_eq!(PrimitiveEndian::to_be(0x0102_0304_0506_0708u64), 0x0807_0605_0403_0201);
    assert_eq!(PrimitiveEndian::to_le(0x1234_5678u32), 0x1234_5678);
    assert_eq!(PrimitiveEndian::to_be(0x12u8), 0x12);
    // The big-endian value read from memory has its bytes in order.
    let raw = u32::from_ne_bytes([0x12, 0x34, 0x56, 0x78]);
    assert_eq!(Be::<u32>::from_raw(raw).into_native(), 0x1234_5678);
}

#[test]
fn invalid_variant_error() {
    let e = InvalidVariantError::new("ExceptionLevel", 7u8);
    assert_eq!(e.enum_type(), "ExceptionLevel");
    assert_eq!(*e.value(), 7);
}

#[test]
fn invalid_variant_error_message() {
    let e = InvalidVariantError::new("Priority", 0x13u8);
    assert_eq!(
        String::from_utf8(e.message()).unwrap(),
        "attempted to construct a variant of enum `Priority` from invalid numeric representation 19"
    );
    let e = InvalidVariantError::new("GPUCommType", 0xffff_ffffu32);
    assert_eq!(
        String::from_utf8(e.message()).unwrap(),
        "attempted to construct a variant of enum `GPUCommType` from invalid numeric representation 4294967295"
    );
}

#[test]
fn int128_decimal_text() {
    let text = |v: Int128| String::from_utf8(v.decimal_text()).unwrap();
    assert_eq!(text(Int128::Unsigned(0)), "0");
    assert_eq!(text(Int128::Unsigned(u128::MAX)), u128::MAX.to_string());
    assert_eq!(text(Int128::Signed(-1)), "-1");
    assert_eq!(text(Int128::Signed(i128::MIN)), i128::MIN.to_string());
    assert_eq!(text(Int128::Signed(1020)), "1020");
}
