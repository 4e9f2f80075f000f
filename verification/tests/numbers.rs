use fast_fmt::encoding::Encoder;
use fast_fmt::encoding::Encoding;
use fast_fmt::encoding::Utf8;
use fast_fmt::Display;
use fast_fmt::Fmt;
use fast_fmt::Write;

fn render<T: Fmt>(value: T) -> String {
    let mut text = String::new();
    value.fmt(&mut text, &Display).unwrap();
    text
}

#[test]
fn least_i32_renders_in_eleven_characters() {
    let least: i32 = -2147483648;
    let text = render(least);
    assert_eq!(text, "-2147483648");
    assert_eq!(text.len(), 11);
    assert_eq!(least.size_hint(&Display), 11);
    assert!(least.size_hint(&Display) >= text.len());
}

#[test]
fn i8_renders_in_decimal() {
    assert_eq!(render(-128i8), "-128");
    assert_eq!(render(127i8), "127");
    assert_eq!(render(0i8), "0");
    assert_eq!(render(-7i8), "-7");
    assert_eq!(render(42i8), "42");
    assert_eq!(render(64i8), "64");
    assert_eq!(render(99i8), "99");
    assert_eq!(render(-64i8), "-64");
    assert_eq!(render(-99i8), "-99");
    assert_eq!(render(10i8), "10");
    assert_eq!(render(63i8), "63");
    assert_eq!(render(100i8), "100");
    assert_eq!(render(-100i8), "-100");
    assert_eq!(0i8.size_hint(&Display), 4);
}

#[test]
fn every_i8_renders_as_std_does() {
    let mut value = i8::MIN;
    loop {
        assert_eq!(render(value), value.to_string());
        assert!(render(value).len() <= value.size_hint(&Display));
        if value == i8::MAX {
            break;
        }
        value += 1;
    }
}

#[test]
fn every_u8_renders_as_std_does() {
    let mut value = u8::MIN;
    loop {
        assert_eq!(render(value), value.to_string());
        if value == u8::MAX {
            break;
        }
        value += 1;
    }
}

#[test]
fn every_i16_and_u16_renders_as_std_does() {
    let mut value = i16::MIN;
    loop {
        assert_eq!(render(value), value.to_string());
        if value == i16::MAX {
            break;
        }
        value += 1;
    }
    let mut value = u16::MIN;
    loop {
        assert_eq!(render(value), value.to_string());
        if value == u16::MAX {
            break;
        }
        value += 1;
    }
}

#[test]
fn i16_renders_in_decimal() {
    assert_eq!(render(-32768i16), "-32768");
    assert_eq!(render(32767i16), "32767");
    assert_eq!(render(0i16), "0");
    assert_eq!(render(-256i16), "-256");
    assert_eq!(render(1000i16), "1000");
    assert_eq!(0i16.size_hint(&Display), 6);
}

#[test]
fn i32_renders_in_decimal() {
    assert_eq!(render(2147483647i32), "2147483647");
    assert_eq!(render(0i32), "0");
    assert_eq!(render(-6235i32), "-6235");
    assert_eq!(render(10000i32), "10000");
    assert_eq!(render(99999i32), "99999");
    assert_eq!(0i32.size_hint(&Display), 11);
}

#[test]
fn i64_renders_in_decimal() {
    assert_eq!(render(i64::MIN), "-9223372036854775808");
    assert_eq!(render(i64::MAX), "9223372036854775807");
    assert_eq!(render(0i64), "0");
    assert_eq!(render(-100000000i64), "-100000000");
    assert_eq!(i64::MIN.size_hint(&Display), 20);
    assert_eq!(render(i64::MIN).len(), 20);
}

#[test]
fn u8_renders_in_decimal() {
    assert_eq!(render(255u8), "255");
    assert_eq!(render(0u8), "0");
    assert_eq!(render(9u8), "9");
    assert_eq!(render(10u8), "10");
    assert_eq!(render(100u8), "100");
    assert_eq!(255u8.size_hint(&Display), 3);
}

#[test]
fn u16_renders_in_decimal() {
    assert_eq!(render(65535u16), "65535");
    assert_eq!(render(0u16), "0");
    assert_eq!(render(999u16), "999");
    assert_eq!(render(1000u16), "1000");
    assert_eq!(65535u16.size_hint(&Display), 5);
}

#[test]
fn u32_renders_in_decimal() {
    assert_eq!(render(4294967295u32), "4294967295");
    assert_eq!(render(0u32), "0");
    assert_eq!(render(162392u32), "162392");
    assert_eq!(4294967295u32.size_hint(&Display), 10);
}

#[test]
fn u64_renders_in_decimal() {
    assert_eq!(render(18446744073709551615u64), "18446744073709551615");
    assert_eq!(render(0u64), "0");
    assert_eq!(render(35320842u64), "35320842");
    assert_eq!(u64::MAX.size_hint(&Display), 20);
    assert_eq!(render(u64::MAX).len(), 20);
}

#[test]
fn number_goes_into_a_slice_that_is_just_long_enough() {
    let mut buf = [0u8; 11];
    {
        let mut sink: &mut [u8] = &mut buf;
        (-2147483648i32).fmt(&mut sink, &Display).unwrap();
        assert_eq!(sink.len(), 0);
    }
    assert_eq!(&buf, b"-2147483648");

    let mut short = [0u8; 10];
    let mut sink: &mut [u8] = &mut short;
    assert!((-2147483648i32).fmt(&mut sink, &Display).is_err());
}

#[test]
fn encoder_writes_utf8_into_a_vector() {
    let mut bytes = vec![b'>'];
    {
        let mut encoder: Encoder<&mut Vec<u8>, Utf8> = Encoder::new(&mut bytes);
        assert!(encoder.uses_size_hint());
        encoder.size_hint(32);
        encoder.size_hint(usize::MAX);
        encoder.write_char('\u{e9}').unwrap();
        encoder.write_str("a\u{20ac}").unwrap();
        "z".fmt(&mut encoder, &Display).unwrap();
        (-17i8).fmt(&mut encoder, &Display).unwrap();
    }
    assert!(bytes.capacity() >= 32);
    assert_eq!(bytes, ">\u{e9}a\u{20ac}z-17".as_bytes());
}

#[test]
fn encoder_gives_its_vector_back() {
    let mut bytes = Vec::new();
    let mut encoder: Encoder<&mut Vec<u8>, Utf8> = Encoder::new(&mut bytes);
    encoder.write_str("\u{f6}").unwrap();
    let back = encoder.into_inner();
    back.push(b'!');
    assert_eq!(bytes, "\u{f6}!".as_bytes());
}

#[test]
fn utf8_encodes_characters_and_strings() {
    let mut bytes = Vec::new();
    Utf8::encode_char(&mut bytes, 'a').unwrap();
    Utf8::encode_char(&mut bytes, '\u{1f600}').unwrap();
    Utf8::encode_str(&mut bytes, "\u{e9}\u{20ac}").unwrap();
    Utf8::encode_str(&mut bytes, "").unwrap();
    assert_eq!(bytes, "a\u{1f600}\u{e9}\u{20ac}".as_bytes());
}

#[test]
fn numbers_around_each_power_of_ten_render_as_std_does() {
    let mut power: u64 = 1;
    loop {
        for value in [power - 1, power, power + 1, power.wrapping_mul(9)] {
            assert_eq!(render(value), value.to_string());
            if value <= i64::MAX as u64 {
                let signed = value as i64;
                assert_eq!(render(signed), signed.to_string());
                assert_eq!(render(-signed), (-signed).to_string());
            }
            if value <= u32::MAX as u64 {
                let small = value as u32;
                assert_eq!(render(small), small.to_string());
            }
            if value <= i32::MAX as u64 {
                let signed = value as i32;
                assert_eq!(render(signed), signed.to_string());
                assert_eq!(render(-signed), (-signed).to_string());
            }
        }
        match power.checked_mul(10) {
            Some(next) => power = next,
            None => break,
        }
    }
}
