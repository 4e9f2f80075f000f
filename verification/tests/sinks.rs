use fast_fmt::consts::DEBUG;
use fast_fmt::consts::DISPLAY;
use fast_fmt::fwrite;
use fast_fmt::transform::Transform;
use fast_fmt::transform::IntoTransformer;
use fast_fmt::transform::Transformed;
use fast_fmt::transform::Identity;
use fast_fmt::transform::IntoTransformed;
use fast_fmt::transform::Transformer;
use fast_fmt::BufferOverflow;
use fast_fmt::Chain;
use fast_fmt::Display;
use fast_fmt::Empty;
use fast_fmt::Fmt;
use fast_fmt::Instantiated;
use fast_fmt::Write;

const TEST_STR: &str = "Hello world1";

struct Upper;

impl Transform for Upper {
    fn transform_char<W: Write>(&self, writer: &mut W, c: char) -> Result<(), W::Error> {
        for c in c.to_uppercase() {
            writer.write_char(c)?;
        }
        Ok(())
    }

    fn transform_size_hint(&self, bytes: usize) -> usize {
        bytes
    }
}

struct Doubling;

impl Transform for Doubling {
    fn transform_char<W: Write>(&self, writer: &mut W, c: char) -> Result<(), W::Error> {
        writer.write_char(c)?;
        writer.write_char(c)
    }

    fn transform_size_hint(&self, bytes: usize) -> usize {
        bytes.saturating_mul(2)
    }
}

#[test]
fn slice_write() {
    let mut buf = [0u8; 42];
    {
        let mut buf: &mut [u8] = &mut buf;
        buf.write_str(TEST_STR).unwrap();
    }
    assert_eq!(&buf[0..TEST_STR.len()], TEST_STR.as_bytes());
}

#[test]
fn buffer_overflow() {
    let mut buf = [0u8; 5];
    let mut buf: &mut [u8] = &mut buf;
    assert_eq!(buf.write_str(TEST_STR), Err(BufferOverflow));

    let mut buf = &mut buf[0..0];
    assert_eq!(buf.write_str(TEST_STR), Err(BufferOverflow));
}

#[test]
fn str_fmt() {
    let mut buf = [0u8; 42];
    {
        let mut buf: &mut [u8] = &mut buf;
        TEST_STR.fmt(&mut buf, &Display).unwrap();
    }
    assert_eq!(&buf[0..TEST_STR.len()], TEST_STR.as_bytes());
}

#[test]
fn instantiated_fmt() {
    let mut buf = [0u8; 42];
    {
        let mut buf: &mut [u8] = &mut buf;
        let display = Display;
        let inst = Instantiated::new(TEST_STR, &display);
        inst.fmt(&mut buf, &Display).unwrap();
    }
    assert_eq!(&buf[0..TEST_STR.len()], TEST_STR.as_bytes());
}

#[test]
fn chain() {
    let mut buf = [0u8; 42];
    {
        let mut buf: &mut [u8] = &mut buf;
        let display = Display;
        let inst = Instantiated::new(TEST_STR, &display);
        let chain = inst.chain(TEST_STR);
        chain.fmt(&mut buf, &Display).unwrap();
    }
    assert_eq!(&buf[0..TEST_STR.len()], TEST_STR.as_bytes());
    assert_eq!(&buf[TEST_STR.len()..(TEST_STR.len() * 2)], TEST_STR.as_bytes());
}

#[test]
fn transform() {
    {
        let mut buf = [0u8; 42];
        {
            let buf = &mut buf;
            let mut buf = buf.transform(Upper);

            fwrite(
                &mut buf,
                &Empty.chain(Instantiated::new("Hello world!", &DISPLAY)),
            )
            .unwrap();
        }
        assert_eq!(&buf[0..12], "HELLO WORLD!".as_bytes());
    }

    {
        let mut buf = [0u8; 42];
        {
            let mut buf: &mut [u8] = &mut buf;
            fwrite(
                &mut buf,
                &Empty
                    .chain(Instantiated::new("Hello", &DISPLAY))
                    .chain(Instantiated::new(" world!".transformed(Upper), &DISPLAY)),
            )
            .unwrap();
        }
        assert_eq!(&buf[0..12], "Hello WORLD!".as_bytes());
    }
}

#[test]
fn uppercase_sink_fills_twelve_bytes() {
    let mut buf = [0u8; 12];
    {
        let sink: &mut [u8] = &mut buf;
        let mut sink = Transformer::new(Upper, sink);
        let chain = Chain::new("Hello", " world!");
        chain.fmt(&mut sink, &Display).unwrap();
    }
    assert_eq!(&buf, "HELLO WORLD!".as_bytes());
}

#[test]
fn text_that_is_too_long_fails_in_five_bytes_and_in_none() {
    let mut five = [0u8; 5];
    let mut sink: &mut [u8] = &mut five;
    assert_eq!(sink.write_str("Hello world1"), Err(BufferOverflow));

    let mut none = [0u8; 0];
    let mut sink: &mut [u8] = &mut none;
    assert_eq!(sink.write_str("Hello world1"), Err(BufferOverflow));
}

#[test]
fn overflow_keeps_what_fitted_and_nothing_of_the_failing_character() {
    let mut buf = [0xffu8; 4];
    {
        let mut sink: &mut [u8] = &mut buf[0..2];
        assert_eq!(sink.write_str("h\u{e9}llo"), Err(BufferOverflow));
        assert_eq!(sink.len(), 1);
    }
    assert_eq!(buf, [b'h', 0xff, 0xff, 0xff]);
}

#[test]
fn slice_takes_a_character_of_several_bytes_whole() {
    let mut buf = [0u8; 7];
    {
        let mut sink: &mut [u8] = &mut buf;
        sink.write_char('\u{20ac}').unwrap();
        sink.write_char('\u{1f600}').unwrap();
        assert_eq!(sink.len(), 0);
        assert!(!sink.uses_size_hint());
    }
    assert_eq!(&buf[0..3], "\u{20ac}".as_bytes());
    assert_eq!(&buf[3..7], "\u{1f600}".as_bytes());
}

#[test]
fn slice_refuses_a_character_that_fits_in_part_only() {
    let mut buf = [0u8; 2];
    {
        let mut sink: &mut [u8] = &mut buf;
        assert_eq!(sink.write_char('\u{20ac}'), Err(BufferOverflow));
        assert_eq!(sink.len(), 2);
        sink.size_hint(100);
        assert_eq!(sink.len(), 2);
        sink.write_char('\u{e9}').unwrap();
    }
    assert_eq!(&buf, "\u{e9}".as_bytes());
}

#[test]
fn string_takes_everything() {
    let mut text = String::new();
    assert!(text.uses_size_hint());
    Write::size_hint(&mut text, 64);
    assert!(text.capacity() >= 64);
    text.write_char('a').unwrap();
    text.write_str("bc\u{e9}").unwrap();
    Write::size_hint(&mut text, usize::MAX);
    assert_eq!(text, "abc\u{e9}");
}

#[test]
fn reference_to_a_sink_is_a_sink() {
    let mut text = String::new();
    {
        let mut sink = &mut text;
        let sink = &mut sink;
        assert!(sink.uses_size_hint());
        sink.size_hint(8);
        sink.write_char('x').unwrap();
        sink.write_str("yz").unwrap();
    }
    assert_eq!(text, "xyz");
}

#[test]
fn debug_and_display_text_chain_to_one_string() {
    let mut text = String::new();
    let chain = Instantiated::new("abc", &DEBUG).chain(Instantiated::new("def", &DISPLAY));
    chain.fmt(&mut text, &Display).unwrap();
    assert_eq!(text, "abcdef");
}

#[test]
fn chain_estimate_is_the_sum_and_its_text_the_two_texts() {
    let first = "h\u{e9}llo";
    let second = String::from(" w\u{f6}rld");
    let mut alone_first = String::new();
    first.fmt(&mut alone_first, &Display).unwrap();
    let mut alone_second = String::new();
    second.fmt(&mut alone_second, &Display).unwrap();

    let chain = Chain::new(first, &second);
    assert_eq!(
        chain.size_hint(&Display),
        first.size_hint(&Display) + second.size_hint(&Display)
    );
    assert_eq!(chain.size_hint(&Display), 6 + 7);
    let mut text = String::new();
    chain.fmt(&mut text, &Display).unwrap();
    assert_eq!(text, alone_first + &alone_second);
    assert_eq!(text, "h\u{e9}llo w\u{f6}rld");
}

#[test]
fn chain_stops_at_the_first_failure() {
    let mut buf = [0u8; 4];
    {
        let mut sink: &mut [u8] = &mut buf;
        let chain = Chain::new("abcdef", "gh").chain("ij");
        assert_eq!(chain.fmt(&mut sink, &Display), Err(BufferOverflow));
    }
    assert_eq!(&buf, b"abcd");
}

#[test]
fn empty_is_neutral_on_both_sides() {
    let mut alone = String::new();
    "text".fmt(&mut alone, &Display).unwrap();

    let mut left = String::new();
    Empty.chain("text").fmt(&mut left, &Display).unwrap();
    assert_eq!(left, alone);

    let mut right = String::new();
    Chain::new("text", Empty).fmt(&mut right, &Display).unwrap();
    assert_eq!(right, alone);

    let mut nothing = String::new();
    Fmt::<Display>::fmt(&Empty, &mut nothing, &Display).unwrap();
    assert_eq!(nothing, "");
    assert_eq!(Fmt::<Display>::size_hint(&Empty, &Display), 0);
    assert_eq!(Empty.chain("text").size_hint(&Display), 4);
}

#[test]
fn size_estimate_of_text_is_its_length_in_bytes() {
    assert_eq!("h\u{e9}llo".size_hint(&Display), 6);
    assert_eq!("h\u{e9}llo".size_hint(&DEBUG), 6);
    assert_eq!(String::from("\u{20ac}").size_hint(&Display), 3);
    assert_eq!('a'.size_hint(&Display), 1);
    assert_eq!('\u{e9}'.size_hint(&Display), 2);
    assert_eq!('\u{20ac}'.size_hint(&Display), 3);
    assert_eq!('\u{1f600}'.size_hint(&Display), 4);
    let mut text = String::new();
    '\u{1f600}'.fmt(&mut text, &Display).unwrap();
    assert_eq!(text.len(), 4);
}

#[test]
fn instantiated_renders_under_its_own_strategy() {
    let bound = Instantiated::new("abc", &DEBUG);
    let mut text = String::new();
    bound.fmt(&mut text, &Display).unwrap();
    assert_eq!(text, "abc");
    assert_eq!(bound.size_hint(&Display), 3);
}

#[test]
fn identity_transform_changes_nothing() {
    let mut plain = String::new();
    "h\u{e9}llo".fmt(&mut plain, &Display).unwrap();

    let transformed = Transformed::new("h\u{e9}llo", Identity);
    let mut text = String::new();
    transformed.fmt(&mut text, &Display).unwrap();
    assert_eq!(text, plain);
    assert_eq!(transformed.size_hint(&Display), "h\u{e9}llo".size_hint(&Display));

    let mut buf = [0u8; 6];
    {
        let sink: &mut [u8] = &mut buf;
        let mut sink = sink.transform(Identity);
        sink.write_char('h').unwrap();
        sink.write_str("\u{e9}llo").unwrap();
        assert_eq!(sink.write_char('!'), Err(BufferOverflow));
    }
    assert_eq!(&buf, "h\u{e9}llo".as_bytes());
    assert_eq!(Identity.transform_size_hint(17), 17);
}

#[test]
fn transformed_estimate_is_the_adjusted_estimate() {
    let transformed = "abc".transformed(Doubling);
    assert_eq!(transformed.size_hint(&Display), 6);
    let mut text = String::new();
    transformed.fmt(&mut text, &Display).unwrap();
    assert_eq!(text, "aabbcc");
}

#[test]
fn transformations_nest() {
    let twice = "ab".transformed(Doubling).transformed(Upper);
    let mut text = String::new();
    twice.fmt(&mut text, &Display).unwrap();
    assert_eq!(text, "AABB");
    assert_eq!(twice.size_hint(&Display), 4);
}

#[test]
fn transformer_hands_the_adjusted_hint_on() {
    let mut sink = Transformer::new(Doubling, String::new());
    assert!(sink.uses_size_hint());
    sink.size_hint(10);
    sink.write_char('x').unwrap();
    sink.write_str("yz").unwrap();
    let mut text = String::new();
    {
        let mut through = (&mut text).transform(&Doubling);
        through.size_hint(16);
        through.write_str("ab").unwrap();
    }
    assert!(text.capacity() >= 32);
    assert_eq!(text, "aabb");

    let mut buf = [0u8; 4];
    let slice: &mut [u8] = &mut buf;
    let bounded = slice.transform(Upper);
    assert!(!bounded.uses_size_hint());
}

#[test]
fn transformer_gives_its_sink_back() {
    let mut sink = Transformer::new(Doubling, String::from(">"));
    sink.write_str("ab").unwrap();
    "c".fmt(&mut sink, &Display).unwrap();
    assert_eq!(sink.into_inner(), ">aabbcc");

    let mut buf = [0u8; 4];
    let slice: &mut [u8] = &mut buf;
    let mut bounded = slice.transform(Upper);
    bounded.write_str("ab").unwrap();
    let rest = bounded.into_inner();
    assert_eq!(rest.len(), 2);
}

#[test]
fn transformer_fails_where_the_rewritten_text_does_not_fit() {
    let mut buf = [0u8; 3];
    {
        let sink: &mut [u8] = &mut buf;
        let mut sink = sink.transform(Doubling);
        assert_eq!(sink.write_str("ab"), Err(BufferOverflow));
    }
    assert_eq!(&buf, b"aab");
}

#[test]
fn fwrite_renders_a_chain_in_one_pass() {
    let mut text = String::new();
    let number: i32 = -42;
    fwrite(
        &mut text,
        &Empty
            .chain(Instantiated::new("n = ", &DISPLAY))
            .chain(Instantiated::new(number, &DISPLAY))
            .chain(Instantiated::new("!", &DEBUG)),
    )
    .unwrap();
    assert_eq!(text, "n = -42!");
    assert!(text.capacity() >= 4 + 11 + 1);

    let mut buf = [0u8; 3];
    let mut sink: &mut [u8] = &mut buf;
    let res = fwrite(&mut sink, &Empty.chain(Instantiated::new("abcd", &DISPLAY)));
    assert_eq!(res, Err(BufferOverflow));
}

#[test]
fn overflow_says_what_it_means() {
    assert_eq!(BufferOverflow.message(), "Attempt to write past buffer");
    assert_eq!(BufferOverflow, BufferOverflow.clone());
}

struct Hex {
    upper: bool,
}

struct Byte(u8);

impl Fmt<Hex> for Byte {
    fn fmt<W: Write>(&self, writer: &mut W, strategy: &Hex) -> Result<(), W::Error> {
        let digits: &[u8; 16] = if strategy.upper {
            b"0123456789ABCDEF"
        } else {
            b"0123456789abcdef"
        };
        writer.write_char(digits[(self.0 >> 4) as usize] as char)?;
        writer.write_char(digits[(self.0 & 15) as usize] as char)
    }

    fn size_hint(&self, _strategy: &Hex) -> usize {
        2
    }
}

#[test]
fn strategy_of_the_caller_carries_its_own_settings() {
    let upper = Hex { upper: true };
    let lower = Hex { upper: false };
    let chain = Empty
        .chain(Instantiated::new("0x", &DISPLAY))
        .chain(Instantiated::new(Byte(0xab), &upper))
        .chain(Instantiated::new('-', &DISPLAY))
        .chain(Instantiated::new(Byte(0x0f), &lower));
    assert_eq!(chain.size_hint(&Display), 2 + 2 + 1 + 2);
    let mut text = String::new();
    fwrite(&mut text, &chain).unwrap();
    assert_eq!(text, "0xAB-0f");

    let mut buf = [0u8; 1];
    let mut sink: &mut [u8] = &mut buf;
    assert_eq!(Byte(0x12).fmt(&mut sink, &upper), Err(BufferOverflow));
}

#[test]
fn chain_skips_the_second_value_after_the_first_failed() {
    let mut buf = [0u8; 1];
    {
        let mut sink: &mut [u8] = &mut buf;
        let chain = Chain::new("\u{e9}", "a");
        assert_eq!(chain.fmt(&mut sink, &Display), Err(BufferOverflow));
        assert_eq!(sink.len(), 1);
    }
    assert_eq!(buf, [0]);
}

#[test]
fn transformed_value_leaves_earlier_output_alone() {
    let mut buf = [0u8; 42];
    {
        let mut sink: &mut [u8] = &mut buf;
        "Hello".fmt(&mut sink, &Display).unwrap();
        let shouted = " world!".transformed(Upper);
        shouted.fmt(&mut sink, &Display).unwrap();
        assert_eq!(sink.len(), 30);
    }
    assert_eq!(&buf[0..12], b"Hello WORLD!");
    assert_eq!(buf[12], 0);
}

#[test]
fn default_string_methods_write_nothing_for_no_text() {
    let mut buf = [0u8; 0];
    let mut sink: &mut [u8] = &mut buf;
    assert_eq!(Upper.transform_str(&mut sink, ""), Ok(()));
    assert_eq!(Doubling.transform_str(&mut sink, "a"), Err(BufferOverflow));
    let mut text = String::new();
    Doubling.transform_str(&mut text, "ab").unwrap();
    assert_eq!(text, "aabb");
}
