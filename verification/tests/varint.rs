use hubby::bits::{bits_of_i16, bits_of_i32, bits_of_i64, bits_of_i8};
use hubby::bits::{i16_of_bits, i32_of_bits, i64_of_bits, i8_of_bits};
use hubby::varint::{read_varint, read_varlong, write_varint_in_place, write_varlong_in_place};

#[test]
fn read_varint_works() {
    assert_eq!(read_varint(&vec![0x00]).unwrap(), (0, 1));
    assert_eq!(read_varint(&vec![0x01]).unwrap(), (1, 1));
    assert_eq!(read_varint(&vec![0x02]).unwrap(), (2, 1));
    assert_eq!(read_varint(&vec![0x7f]).unwrap(), (127, 1));
    assert_eq!(read_varint(&vec![0x80, 0x01]).unwrap(), (128, 2));
    assert_eq!(read_varint(&vec![0xff, 0x01]).unwrap(), (255, 2));
    assert_eq!(read_varint(&vec![0xdd, 0xc7, 0x01]).unwrap(), (25565, 3));
    assert_eq!(read_varint(&vec![0xff, 0xff, 0x7f]).unwrap(), (2097151, 3));
    assert_eq!(read_varint(&vec![0xff, 0xff, 0xff, 0xff, 0x07]).unwrap(), (2147483647, 5));
    assert_eq!(read_varint(&vec![0xff, 0xff, 0xff, 0xff, 0x0f]).unwrap(), (-1, 5));
    assert_eq!(read_varint(&vec![0x80, 0x80, 0x80, 0x80, 0x08]).unwrap(), (-2147483648, 5));
}

#[test]
fn write_varint_works() {
    let mut vec: Vec<u8> = vec![];
    write_varint_in_place(&mut vec, 0);
    assert_eq!(vec, vec![0x00]);

    vec = vec![];
    write_varint_in_place(&mut vec, 1);
    assert_eq!(vec, vec![0x01]);

    vec = vec![];
    write_varint_in_place(&mut vec, 2);
    assert_eq!(vec, vec![0x02]);

    vec = vec![];
    write_varint_in_place(&mut vec, 127);
    assert_eq!(vec, vec![0x7f]);

    vec = vec![];
    write_varint_in_place(&mut vec, 128);
    assert_eq!(vec, vec![0x80, 0x01]);

    vec = vec![];
    write_varint_in_place(&mut vec, 255);
    assert_eq!(vec, vec![0xff, 0x01]);

    vec = vec![];
    write_varint_in_place(&mut vec, 25565);
    assert_eq!(vec, vec![0xdd, 0xc7, 0x01]);

    vec = vec![];
    write_varint_in_place(&mut vec, 2097151);
    assert_eq!(vec, vec![0xff, 0xff, 0x7f]);

    vec = vec![];
    write_varint_in_place(&mut vec, 2147483647);
    assert_eq!(vec, vec![0xff, 0xff, 0xff, 0xff, 0x07]);

    vec = vec![];
    write_varint_in_place(&mut vec, -1);
    assert_eq!(vec, vec![0xff, 0xff, 0xff, 0xff, 0x0f]);

    vec = vec![];
    write_varint_in_place(&mut vec, -2147483648);
    assert_eq!(vec, vec![0x80, 0x80, 0x80, 0x80, 0x08]);
}

#[test]
fn read_varlong_works() {
    assert_eq!(read_varlong(&vec![0x00]).unwrap(), (0, 1));
    assert_eq!(read_varlong(&vec![0x01]).unwrap(), (1, 1));
    assert_eq!(read_varlong(&vec![0x02]).unwrap(), (2, 1));
    assert_eq!(read_varlong(&vec![0x7f]).unwrap(), (127, 1));
    assert_eq!(read_varlong(&vec![0x80, 0x01]).unwrap(), (128, 2));
    assert_eq!(read_varlong(&vec![0xff, 0x01]).unwrap(), (255, 2));
    assert_eq!(read_varlong(&vec![0xff, 0xff, 0xff, 0xff, 0x07]).unwrap(), (2147483647, 5));
    assert_eq!(
        read_varlong(&vec![0xff, 0xff, 0xff, 0xff, 0xff, 0xff, 0xff, 0xff, 0x7f]).unwrap(),
        (9223372036854775807, 9)
    );
    assert_eq!(
        read_varlong(&vec![0xff, 0xff, 0xff, 0xff, 0xff, 0xff, 0xff, 0xff, 0xff, 0x01]).unwrap(),
        (-1, 10)
    );
    assert_eq!(
        read_varlong(&vec![0x80, 0x80, 0x80, 0x80, 0xf8, 0xff, 0xff, 0xff, 0xff, 0x01]).unwrap(),
        (-2147483648, 10)
    );
    assert_eq!(
        read_varlong(&vec![0x80, 0x80, 0x80, 0x80, 0x80, 0x80, 0x80, 0x80, 0x80, 0x01]).unwrap(),
        (-9223372036854775808, 10)
    );
}

#[test]
fn write_varlong_works() {
    let mut vec: Vec<u8> = vec![];
    write_varlong_in_place(&mut vec, 0);
    assert_eq!(vec, vec![0x00]);

    vec = vec![];
    write_varlong_in_place(&mut vec, 1);
    assert_eq!(vec, vec![0x01]);

    vec = vec![];
    write_varlong_in_place(&mut vec, 2);
    assert_eq!(vec, vec![0x02]);

    vec = vec![];
    write_varlong_in_place(&mut vec, 127);
    assert_eq!(vec, vec![0x7f]);

    vec = vec![];
    write_varlong_in_place(&mut vec, 128);
    assert_eq!(vec, vec![0x80, 0x01]);

    vec = vec![];
    write_varlong_in_place(&mut vec, 255);
    assert_eq!(vec, vec![0xff, 0x01]);

    vec = vec![];
    write_varlong_in_place(&mut vec, 2147483647);
    assert_eq!(vec, vec![0xff, 0xff, 0xff, 0xff, 0x07]);

    vec = vec![];
    write_varlong_in_place(&mut vec, 9223372036854775807);
    assert_eq!(vec, vec![0xff, 0xff, 0xff, 0xff, 0xff, 0xff, 0xff, 0xff, 0x7f]);

    vec = vec![];
    write_varlong_in_place(&mut vec, -1);
    assert_eq!(vec, vec![0xff, 0xff, 0xff, 0xff, 0xff, 0xff, 0xff, 0xff, 0xff, 0x01]);

    vec = vec![];
    write_varlong_in_place(&mut vec, -2147483648);
    assert_eq!(vec, vec![0x80, 0x80, 0x80, 0x80, 0xf8, 0xff, 0xff, 0xff, 0xff, 0x01]);

    vec = vec![];
    write_varlong_in_place(&mut vec, -9223372036854775808);
    assert_eq!(vec, vec![0x80, 0x80, 0x80, 0x80, 0x80, 0x80, 0x80, 0x80, 0x80, 0x01]);
}

#[test]
fn varint_round_trips() {
    for v in [0, 1, -1, 127, 128, 300, 25565, i32::MAX, i32::MIN, -300, 0x0fff_ffff, 0x1000_0000] {
        let bytes = hubby::varint::write_varint(v);
        assert_eq!(read_varint(&bytes).unwrap(), (v, bytes.len()));
        let mut longer = bytes.clone();
        longer.extend_from_slice(&[0xff, 0x00, 0x80]);
        assert_eq!(read_varint(&longer).unwrap(), (v, bytes.len()));
    }
}

#[test]
fn varlong_round_trips() {
    for v in [0, 1, -1, 127, 128, 300, i64::MAX, i64::MIN, -300, 1 << 35, 1 << 62, 1 << 56] {
        let bytes = hubby::varint::write_varlong(v);
        assert_eq!(read_varlong(&bytes).unwrap(), (v, bytes.len()));
        let mut longer = bytes.clone();
        longer.extend_from_slice(&[0xff, 0x00, 0x80]);
        assert_eq!(read_varlong(&longer).unwrap(), (v, bytes.len()));
    }
}

#[test]
fn varint_lengths() {
    assert_eq!(hubby::varint::write_varint(0).len(), 1);
    assert_eq!(hubby::varint::write_varint(127).len(), 1);
    assert_eq!(hubby::varint::write_varint(128).len(), 2);
    assert_eq!(hubby::varint::write_varint(16383).len(), 2);
    assert_eq!(hubby::varint::write_varint(16384).len(), 3);
    assert_eq!(hubby::varint::write_varint(i32::MAX).len(), 5);
    assert_eq!(hubby::varint::write_varint(-1).len(), 5);
    assert_eq!(hubby::varint::write_varint(i32::MIN).len(), 5);
    assert_eq!(hubby::varint::write_varlong(-1).len(), 10);
    assert_eq!(hubby::varint::write_varlong(i64::MIN).len(), 10);
    assert_eq!(hubby::varint::write_varlong(i64::MAX).len(), 9);
    assert_eq!(hubby::varint::write_varlong(0).len(), 1);
}

#[test]
fn write_varint_appends() {
    let mut vec: Vec<u8> = vec![0xaa, 0xbb];
    write_varint_in_place(&mut vec, 300);
    assert_eq!(vec, vec![0xaa, 0xbb, 0xac, 0x02]);
    write_varlong_in_place(&mut vec, 300);
    assert_eq!(vec, vec![0xaa, 0xbb, 0xac, 0x02, 0xac, 0x02]);
    assert_eq!(hubby::varint::write_varint(128), vec![0x80, 0x01]);
    assert_eq!(hubby::varint::write_varlong(128), vec![0x80, 0x01]);
}

#[test]
fn varint_overflow_is_refused() {
    assert!(matches!(
        read_varint(&[0x80, 0x80, 0x80, 0x80, 0x80]),
        Err(hubby::Error::VarIntOverflow)
    ));
    assert!(matches!(
        read_varint(&[0xff, 0xff, 0xff, 0xff, 0xff, 0x01]),
        Err(hubby::Error::VarIntOverflow)
    ));
    assert!(matches!(
        read_varlong(&[0x80, 0x80, 0x80, 0x80, 0x80, 0x80, 0x80, 0x80, 0x80, 0x80]),
        Err(hubby::Error::VarLongOverflow)
    ));
    assert!(matches!(
        read_varlong(&[0xff, 0xff, 0xff, 0xff, 0xff, 0xff, 0xff, 0xff, 0xff, 0xff, 0x00]),
        Err(hubby::Error::VarLongOverflow)
    ));
}

#[test]
fn a_fifth_byte_after_an_earlier_end_is_not_read() {
    assert_eq!(read_varint(&[0x01, 0x00, 0x00, 0x00, 0x80]).unwrap(), (1, 1));
}

#[test]
fn high_bits_of_the_last_group_are_dropped() {
    assert_eq!(read_varint(&[0xff, 0xff, 0xff, 0xff, 0x7f]).unwrap(), (-1, 5));
    assert_eq!(read_varint(&[0x80, 0x80, 0x80, 0x80, 0x10]).unwrap(), (0, 5));
    assert_eq!(
        read_varlong(&[0x80, 0x80, 0x80, 0x80, 0x80, 0x80, 0x80, 0x80, 0x80, 0x02]).unwrap(),
        (0, 10)
    );
    assert_eq!(
        read_varlong(&[0x80, 0x80, 0x80, 0x80, 0x80, 0x80, 0x80, 0x80, 0x80, 0x7f]).unwrap(),
        (i64::MIN, 10)
    );
}

#[test]
fn non_minimal_varints_are_read() {
    assert_eq!(read_varint(&[0x80, 0x00]).unwrap(), (0, 2));
    assert_eq!(read_varlong(&[0x81, 0x80, 0x00]).unwrap(), (1, 3));
}

#[test]
fn truncated_varints_end_early() {
    assert!(matches!(read_varint(&[]), Err(hubby::Error::Eof)));
    assert!(matches!(read_varint(&[0x80]), Err(hubby::Error::Eof)));
    assert!(matches!(read_varint(&[0xff, 0xff, 0xff, 0xff]), Err(hubby::Error::Eof)));
    assert!(matches!(read_varlong(&[]), Err(hubby::Error::Eof)));
    assert!(matches!(
        read_varlong(&[0xff, 0xff, 0xff, 0xff, 0xff, 0xff, 0xff, 0xff, 0xff]),
        Err(hubby::Error::Eof)
    ));
}

#[test]
fn accumulator_agrees_with_buffer() {
    let mut acc = hubby::varint::VarIntAccumulator::new();
    assert!(acc.push(0xdd).is_none());
    assert!(acc.push(0xc7).is_none());
    assert!(matches!(acc.push(0x01), Some(Ok(25565))));
    assert!(matches!(acc.push(0x05), Some(Ok(5))));
    for b in [0x80, 0x80, 0x80, 0x80] {
        assert!(acc.push(b).is_none());
    }
    assert!(matches!(acc.push(0x08), Some(Ok(i32::MIN))));
    for b in [0xff, 0xff, 0xff, 0xff] {
        assert!(acc.push(b).is_none());
    }
    assert!(matches!(acc.push(0x80), Some(Err(hubby::Error::VarIntOverflow))));
    assert!(matches!(acc.push(0x7f), Some(Ok(127))));
}

#[test]
fn long_accumulator_agrees_with_buffer() {
    let mut acc = hubby::varint::VarLongAccumulator::new();
    for b in [0x80, 0x80, 0x80, 0x80, 0xf8, 0xff, 0xff, 0xff, 0xff] {
        assert!(acc.push(b).is_none());
    }
    assert!(matches!(acc.push(0x01), Some(Ok(-2147483648))));
    for _ in 0..9 {
        assert!(acc.push(0x80).is_none());
    }
    assert!(matches!(acc.push(0x80), Some(Err(hubby::Error::VarLongOverflow))));
    assert!(matches!(acc.push(0x00), Some(Ok(0))));
    for v in [0i64, -1, i64::MAX, i64::MIN, 1 << 40] {
        let bytes = hubby::varint::write_varlong(v);
        let mut got = None;
        for b in &bytes {
            got = acc.push(*b);
        }
        assert!(matches!(got, Some(Ok(x)) if x == v));
    }
}

#[test]
fn bit_patterns() {
    assert_eq!(bits_of_i8(-1), 0xff);
    assert_eq!(bits_of_i8(i8::MIN), 0x80);
    assert_eq!(bits_of_i8(5), 5);
    assert_eq!(bits_of_i16(-2), 0xfffe);
    assert_eq!(bits_of_i32(i32::MIN), 0x8000_0000);
    assert_eq!(bits_of_i64(-1), u64::MAX);
    assert_eq!(i8_of_bits(0xff), -1);
    assert_eq!(i8_of_bits(0x7f), 127);
    assert_eq!(i16_of_bits(0x8000), i16::MIN);
    assert_eq!(i32_of_bits(0xffff_fffe), -2);
    assert_eq!(i64_of_bits(0x8000_0000_0000_0000), i64::MIN);
    assert_eq!(i64_of_bits(7), 7);
}
