use varint_pext::{
    decode_var_int, decode_var_int32, encode_var_int, pdep, pext, popcount, DecodeError,
    EncodeError,
};

#[test]
fn validate_pdep() {
    //ensure I understand how this works
    assert_eq!(pdep(0x7F7Fu64, 0x80u64), 0x0100u64);
}

fn check_decode(arr: &[u8], val: u64) {
    if arr.len() != 8 {
        panic!("Length of array is not 8 but {:?}", arr.len());
    }
    match decode_var_int(arr) {
        Err(e) => panic!("Array contents {:?} returned {:?}", arr, e),
        Ok(var) => {
            if var != val {
                panic!(
                    "Return value from {:?} is {:?} but doesn't equal assertion {:?}",
                    arr, var, val
                );
            }
        }
    }
}

#[test]
fn test_decode_var_int() {
    let trivial0 = &[0x00, 0x00, 0x00, 0x00, 0x00, 0x00, 0x00, 0x00];
    check_decode(trivial0, 0u64);

    let trivial1 = &[0x01, 0x00, 0x00, 0x00, 0x00, 0x00, 0x00, 0x00];
    check_decode(trivial1, 1u64);

    let trivial2 = &[0x02, 0x00, 0x00, 0x00, 0x00, 0x00, 0x00, 0x00];
    check_decode(trivial2, 2u64);

    let trivial3 = &[0x03, 0x00, 0x00, 0x00, 0x00, 0x00, 0x00, 0x00];
    check_decode(trivial3, 3u64);

    let trivial127 = &[0x7F, 0x00, 0x00, 0x00, 0x00, 0x00, 0x00, 0x00];
    check_decode(trivial127, 127u64);

    let trivial = &[0xAC, 0x02, 0x00, 0x00, 0x00, 0x00, 0x00, 0x00];
    check_decode(trivial, 300u64);

    let trivial = &[0x96, 0x01, 0x00, 0x00, 0x00, 0x00, 0x00, 0x00];
    check_decode(trivial, 150u64);
}

#[test]
fn reflect_value() {
    let mut vals: Vec<u64> = Vec::new();
    for i in 0u64..=0x20000 {
        vals.push(i);
    }
    let mut i: u64 = 0;
    while i <= u32::MAX as u64 {
        vals.push(i);
        i += 65521;
    }
    vals.push(u32::MAX as u64);
    for &var in &vals {
        let buf = match encode_var_int(var) {
            Err(e) => panic!("Failed to encode {:?}: {:?}", var, e),
            Ok(x) => x,
        };
        match decode_var_int(&buf) {
            Err(e) => panic!("Decode arr {:?} failed with {:?} on value {:?}", &buf, e, &var),
            Ok(out) => {
                if out != var {
                    panic!(
                        "Value in was {:?} array was {:?} value out was {:?}",
                        var, &buf, out
                    );
                }
            }
        }
    }
}

#[test]
fn reflect_value_large() {
    let vals: Vec<u64> = vec![
        0x1_0000_0000,
        0x7_FFFF_FFFF,
        0x8_0000_0000,
        0x123_4567_89AB,
        0x3FF_FFFF_FFFF,
        0x400_0000_0000,
        0x1_FFFF_FFFF_FFFF,
        0x2_0000_0000_0000,
        0xDE_ADBE_EFDE_ADBE,
        0xFF_FFFF_FFFF_FFFF,
    ];
    for &var in &vals {
        let buf = encode_var_int(var).unwrap();
        assert_eq!(decode_var_int(&buf), Ok(var));
    }
}

#[test]
fn encode_literal_vector() {
    assert_eq!(
        encode_var_int(300).unwrap(),
        vec![0xAC, 0x02, 0x00, 0x00, 0x00, 0x00, 0x00, 0x00]
    );
}

#[test]
fn encode_boundary_classes() {
    let cases: Vec<(u64, [u8; 8])> = vec![
        (0x00, [0x00, 0x00, 0x00, 0x00, 0x00, 0x00, 0x00, 0x00]),
        (0x7F, [0x7F, 0x00, 0x00, 0x00, 0x00, 0x00, 0x00, 0x00]),
        (0x80, [0x80, 0x01, 0x00, 0x00, 0x00, 0x00, 0x00, 0x00]),
        (0x3FFF, [0xFF, 0x7F, 0x00, 0x00, 0x00, 0x00, 0x00, 0x00]),
        (0x4000, [0x80, 0x80, 0x01, 0x00, 0x00, 0x00, 0x00, 0x00]),
        (0x1FFFFF, [0xFF, 0xFF, 0x7F, 0x00, 0x00, 0x00, 0x00, 0x00]),
        (0x200000, [0x80, 0x80, 0x80, 0x01, 0x00, 0x00, 0x00, 0x00]),
        (0xFFFFFFF, [0xFF, 0xFF, 0xFF, 0x7F, 0x00, 0x00, 0x00, 0x00]),
        (0x10000000, [0x80, 0x80, 0x80, 0x80, 0x01, 0x00, 0x00, 0x00]),
        (0x7FFFFFFFF, [0xFF, 0xFF, 0xFF, 0xFF, 0x7F, 0x00, 0x00, 0x00]),
        (0x800000000, [0x80, 0x80, 0x80, 0x80, 0x80, 0x01, 0x00, 0x00]),
        (0x3FFFFFFFFFF, [0xFF, 0xFF, 0xFF, 0xFF, 0xFF, 0x7F, 0x00, 0x00]),
        (0x40000000000, [0x80, 0x80, 0x80, 0x80, 0x80, 0x80, 0x01, 0x00]),
        (0x1FFFFFFFFFFFF, [0xFF, 0xFF, 0xFF, 0xFF, 0xFF, 0xFF, 0x7F, 0x00]),
        (0x2000000000000, [0x80, 0x80, 0x80, 0x80, 0x80, 0x80, 0x80, 0x01]),
        (0xFFFFFFFFFFFFFF, [0xFF, 0xFF, 0xFF, 0xFF, 0xFF, 0xFF, 0xFF, 0x7F]),
    ];
    for &(val, expect) in &cases {
        let got = encode_var_int(val).unwrap();
        assert_eq!(got, expect.to_vec(), "encoding of {:#x}", val);
        assert_eq!(decode_var_int(&got), Ok(val));
    }
}

#[test]
fn buffer_too_short() {
    let bytes = [0x7Fu8; 8];
    for len in 0..8 {
        assert_eq!(
            decode_var_int(&bytes[..len]),
            Err(DecodeError::BufferTooShort),
            "length {}",
            len
        );
        assert_eq!(
            decode_var_int32(&bytes[..len]),
            Err(DecodeError::BufferTooShort),
            "length {}",
            len
        );
    }
}

#[test]
fn value_too_large() {
    assert_eq!(
        encode_var_int(0xFFFFFFFFFFFFFF + 1),
        Err(EncodeError::ValueTooLarge)
    );
    assert_eq!(encode_var_int(u64::MAX), Err(EncodeError::ValueTooLarge));
}

#[test]
fn var_int_too_long() {
    let all_flags = [0x80u8; 8];
    assert_eq!(decode_var_int(&all_flags), Err(DecodeError::VarIntTooLong));
    let mixed = [0xFFu8, 0xFF, 0xFF, 0xFF, 0xFF, 0xFF, 0xFF, 0x80];
    assert_eq!(decode_var_int(&mixed), Err(DecodeError::VarIntTooLong));
}

#[test]
fn decode32_narrow_rejects_long() {
    // 6 active bytes: 5 set continuation flags.
    let six = [0x80u8, 0x80, 0x80, 0x80, 0x80, 0x01, 0x00, 0x00];
    assert_eq!(decode_var_int(&six), Ok(0x800000000));
    assert_eq!(decode_var_int32(&six), Err(DecodeError::VarIntTooLong));
    let eight = [0x80u8; 8];
    assert_eq!(decode_var_int32(&eight), Err(DecodeError::VarIntTooLong));
}

#[test]
fn decode32_accepts_and_truncates() {
    // 5 active bytes carry up to 35 payload bits; the high ones are cut.
    let value: u64 = 0x100000001;
    let buf = encode_var_int(value).unwrap();
    assert_eq!(buf, vec![0x81, 0x80, 0x80, 0x80, 0x10, 0x00, 0x00, 0x00]);
    assert_eq!(decode_var_int32(&buf), Ok(1u32));

    let exact: u64 = u32::MAX as u64;
    let buf = encode_var_int(exact).unwrap();
    assert_eq!(decode_var_int32(&buf), Ok(u32::MAX));

    let small = [0xAC, 0x02, 0x00, 0x00, 0x00, 0x00, 0x00, 0x00];
    assert_eq!(decode_var_int32(&small), Ok(300u32));
}

#[test]
fn extract_deposit_idempotence() {
    let masks: Vec<u64> = vec![
        0x7F,
        0x7F7F,
        0x7F7F7F7F7F7F7F7F,
        0x8080808080808080,
        0xF0F0F0F0F0F0F0F0,
        0x0000FFFF0000FFFF,
        0x1,
        0x8000000000000000,
        0,
        u64::MAX,
        0xDEADBEEF12345678,
    ];
    let vals: Vec<u64> = vec![0, 1, 0x80, 300, 0xFFFFFFFF, 0x123456789ABCDEF0, u64::MAX];
    for &m in &masks {
        for &v in &vals {
            assert_eq!(pdep(m, pext(m, v)), v & m, "mask {:#x} value {:#x}", m, v);
            let low = if popcount(m) >= 64 {
                u64::MAX
            } else {
                (1u64 << popcount(m)) - 1
            };
            assert_eq!(pext(m, pdep(m, v)), v & low, "mask {:#x} value {:#x}", m, v);
        }
    }
}

#[test]
fn pext_pdep_vectors() {
    assert_eq!(pext(0x7F7F, 0x022C), 0x012C);
    assert_eq!(pext(0x7F7F, 0x822C), 0x012C);
    assert_eq!(pdep(0x7F7F, 300), 0x022C);
    assert_eq!(pext(0xF0, 0xAB), 0x0A);
    assert_eq!(pdep(0xF0, 0x0A), 0xA0);
    assert_eq!(popcount(0), 0);
    assert_eq!(popcount(0x8080808080808080), 8);
    assert_eq!(popcount(u64::MAX), 64);
}
