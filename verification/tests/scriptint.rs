use scriptexec::{read_scriptint_size, scriptint_parse, scriptint_vec, ScriptIntError};

fn round_trips(n: i64) {
    let bytes = scriptint_vec(n);
    assert!(bytes.len() <= 8);
    assert_eq!(read_scriptint_size(&bytes, 8, true), Ok(n));
    assert_eq!(read_scriptint_size(&bytes, 8, false), Ok(n));
}

#[test]
fn encodes_zero_as_no_bytes() {
    assert_eq!(scriptint_vec(0), Vec::<u8>::new());
    assert_eq!(read_scriptint_size(&[], 0, true), Ok(0));
    assert_eq!(read_scriptint_size(&[], 4, false), Ok(0));
}

#[test]
fn encodes_small_numbers() {
    assert_eq!(scriptint_vec(1), vec![0x01]);
    assert_eq!(scriptint_vec(-1), vec![0x81]);
    assert_eq!(scriptint_vec(127), vec![0x7f]);
    assert_eq!(scriptint_vec(-127), vec![0xff]);
    assert_eq!(scriptint_vec(128), vec![0x80, 0x00]);
    assert_eq!(scriptint_vec(-128), vec![0x80, 0x80]);
    assert_eq!(scriptint_vec(255), vec![0xff, 0x00]);
    assert_eq!(scriptint_vec(-255), vec![0xff, 0x80]);
    assert_eq!(scriptint_vec(256), vec![0x00, 0x01]);
    assert_eq!(scriptint_vec(-256), vec![0x00, 0x81]);
    assert_eq!(scriptint_vec(0x1234), vec![0x34, 0x12]);
}

#[test]
fn encodes_extremes() {
    assert_eq!(scriptint_vec(i32::MAX as i64), vec![0xff, 0xff, 0xff, 0x7f]);
    assert_eq!(scriptint_vec(-(i32::MAX as i64)), vec![0xff, 0xff, 0xff, 0xff]);
    assert_eq!(scriptint_vec(i32::MIN as i64), vec![0x00, 0x00, 0x00, 0x80, 0x80]);
    assert_eq!(scriptint_vec(i64::MAX), vec![0xff, 0xff, 0xff, 0xff, 0xff, 0xff, 0xff, 0x7f]);
    assert_eq!(
        scriptint_vec(i64::MIN + 1),
        vec![0xff, 0xff, 0xff, 0xff, 0xff, 0xff, 0xff, 0xff]
    );
}

#[test]
fn round_trip_on_chosen_values() {
    let mut values: Vec<i64> = vec![
        0,
        1,
        -1,
        127,
        128,
        -128,
        255,
        256,
        32767,
        32768,
        -32768,
        8388607,
        8388608,
        -8388608,
        i32::MAX as i64,
        i32::MIN as i64,
        i32::MAX as i64 + 1,
        i64::MAX,
        i64::MIN + 1,
    ];
    let mut x: i64 = 1;
    for _ in 0..62 {
        x *= 2;
        values.push(x);
        values.push(-x);
        values.push(x - 1);
        values.push(1 - x);
    }
    for n in values {
        round_trips(n);
    }
}

#[test]
fn round_trip_around_zero() {
    for n in -70000i64..=70000 {
        round_trips(n);
    }
}

#[test]
fn encoding_is_no_longer_than_other_spellings() {
    // 5 spelled with a padding byte, and in its canonical single byte
    assert_eq!(read_scriptint_size(&[0x05, 0x00], 8, false), Ok(5));
    assert_eq!(scriptint_vec(5), vec![0x05]);
    // -5 with the sign moved to a byte of its own
    assert_eq!(read_scriptint_size(&[0x05, 0x80], 8, false), Ok(-5));
    assert_eq!(scriptint_vec(-5), vec![0x85]);
}

#[test]
fn rejects_non_minimal_high_byte() {
    assert_eq!(
        read_scriptint_size(&[0x00, 0x80], 8, true),
        Err(ScriptIntError::NonMinimalPush)
    );
    assert_eq!(
        read_scriptint_size(&[0x00, 0x80], 2, true),
        Err(ScriptIntError::NonMinimalPush)
    );
    assert_eq!(
        read_scriptint_size(&[0x00, 0x80], 4, true),
        Err(ScriptIntError::NonMinimalPush)
    );
}

#[test]
fn accepts_required_trailing_zero() {
    assert_eq!(read_scriptint_size(&[0xff, 0x00], 8, true), Ok(255));
    assert_eq!(read_scriptint_size(&[0xff, 0x00], 2, true), Ok(255));
    assert_eq!(read_scriptint_size(&[0xff, 0x80], 4, true), Ok(-255));
}

#[test]
fn rejects_zero_spelled_with_bytes() {
    assert_eq!(read_scriptint_size(&[0x00], 4, true), Err(ScriptIntError::NonMinimalPush));
    assert_eq!(read_scriptint_size(&[0x80], 4, true), Err(ScriptIntError::NonMinimalPush));
    assert_eq!(read_scriptint_size(&[0x00], 4, false), Ok(0));
    assert_eq!(read_scriptint_size(&[0x80], 4, false), Ok(0));
    assert_eq!(read_scriptint_size(&[0x01, 0x00], 4, true), Err(ScriptIntError::NonMinimalPush));
    assert_eq!(read_scriptint_size(&[0x01, 0x00], 4, false), Ok(1));
}

#[test]
fn overflow_for_every_size_limit() {
    for max_size in 0..=8usize {
        for len in 0..=10usize {
            let bytes = vec![0x01u8; len];
            for minimal in [false, true] {
                let r = read_scriptint_size(&bytes, max_size, minimal);
                if len > max_size {
                    assert_eq!(r, Err(ScriptIntError::NumericOverflow));
                } else {
                    assert!(r.is_ok());
                }
            }
        }
    }
}

#[test]
fn overflow_comes_before_minimality() {
    // a five-byte zero is an overflow, not a non-minimal zero
    assert_eq!(
        read_scriptint_size(&[0, 0, 0, 0, 0], 4, true),
        Err(ScriptIntError::NumericOverflow)
    );
    assert_eq!(
        read_scriptint_size(&[0, 0, 0, 0, 0], 4, false),
        Err(ScriptIntError::NumericOverflow)
    );
    assert_eq!(read_scriptint_size(&[0, 0, 0, 0, 0], 5, false), Ok(0));
}

#[test]
fn four_byte_domain() {
    assert_eq!(read_scriptint_size(&[0xff, 0xff, 0xff, 0x7f], 4, true), Ok(2147483647));
    assert_eq!(read_scriptint_size(&[0xff, 0xff, 0xff, 0xff], 4, true), Ok(-2147483647));
    assert_eq!(
        read_scriptint_size(&scriptint_vec(i32::MIN as i64), 4, true),
        Err(ScriptIntError::NumericOverflow)
    );
}

#[test]
fn parses_eight_bytes() {
    assert_eq!(scriptint_parse(&[0xff; 8]), -i64::MAX);
    assert_eq!(scriptint_parse(&[0xff, 0xff, 0xff, 0xff, 0xff, 0xff, 0xff, 0x7f]), i64::MAX);
    assert_eq!(scriptint_parse(&[0, 0, 0, 0, 0, 0, 0, 0x80]), 0);
    assert_eq!(scriptint_parse(&[0x01, 0, 0, 0, 0, 0, 0, 0x80]), -1);
    assert_eq!(read_scriptint_size(&[0xff; 8], 8, true), Ok(-i64::MAX));
}

#[test]
fn parses_little_endian() {
    assert_eq!(scriptint_parse(&[0x01]), 1);
    assert_eq!(scriptint_parse(&[0x81]), -1);
    assert_eq!(scriptint_parse(&[0x34, 0x12]), 0x1234);
    assert_eq!(scriptint_parse(&[0x34, 0x92]), -0x1234);
    assert_eq!(scriptint_parse(&[0x78, 0x56, 0x34, 0x12]), 0x12345678);
}

#[test]
fn agrees_with_bitcoin_reader() {
    for n in [-100000i64, -256, -255, -129, -128, -1, 0, 1, 127, 128, 255, 256, 100000] {
        let bytes = scriptint_vec(n);
        assert_eq!(bitcoin::script::read_scriptint(&bytes), Ok(n));
        assert_eq!(read_scriptint_size(&bytes, 4, true), Ok(n));
    }
}

#[test]
fn script_int_error_in_words() {
    assert_eq!(ScriptIntError::NonMinimalPush.message(), "non-minimal datapush");
    assert_eq!(
        ScriptIntError::NumericOverflow.message(),
        "numeric overflow (number on stack larger than 4 bytes)"
    );
}

#[test]
fn minimal_bytes_are_the_encoding_of_their_value() {
    for a in 0..=255u8 {
        for b in 0..=255u8 {
            for bytes in [vec![a], vec![a, b], vec![a, b, 0x01], vec![b, a, 0x80]] {
                match read_scriptint_size(&bytes, 8, true) {
                    Ok(n) => assert_eq!(scriptint_vec(n), bytes),
                    Err(e) => {
                        assert_eq!(e, ScriptIntError::NonMinimalPush);
                        let n = read_scriptint_size(&bytes, 8, false).unwrap();
                        assert!(scriptint_vec(n).len() < bytes.len());
                    }
                }
            }
        }
    }
}
