use fwob::key::Key;
use fwob::toml::{escape_multiline, escape_string, quote_key, TomlWriter};

fn render(color: bool, f: impl FnOnce(&mut TomlWriter)) -> String {
    let mut w = TomlWriter::new(String::new(), color);
    f(&mut w);
    w.into_inner()
}

#[test]
fn plain_output_is_valid_toml() {
    let out = render(false, |w| {
        w.section("summary");
        w.kv_num("bars", 1552);
        w.kv_str("method", "log");
        w.kv_bool("annualized", true);
        w.kv_float("mean", &format!("{:.6}", 0.000479));
        w.blank();
        w.array_section("field");
        w.kv_float_array("weights", &[format!("{:.2}", 0.5), format!("{:.2}", 0.25)]);
    });
    let expected = "[summary]\nbars = 1552\nmethod = \"log\"\nannualized = true\n\
         mean = 0.000479\n\n[[field]]\nweights = [0.50, 0.25]\n";
    assert_eq!(out, expected);
}

#[test]
fn color_wraps_whole_tokens() {
    let out = render(true, |w| w.kv_num("n", 3));
    assert_eq!(
        out,
        "\x1b[38;2;121;192;255mn\x1b[0m = \x1b[38;2;255;166;87m3\x1b[0m\n"
    );
}

#[test]
fn strings_are_escaped() {
    let out = render(false, |w| w.kv_str("path", "a\"b\\c"));
    assert_eq!(out, "path = \"a\\\"b\\\\c\"\n");
}

#[test]
fn every_escape_is_written() {
    assert_eq!(escape_string("\\\"\n\r\t x"), "\\\\\\\"\\n\\r\\t x");
    assert_eq!(escape_multiline("a\\b\"\"\"\"c\"\"\n"), "a\\\\b\\\"\\\"\\\"\"c\"\"\n");
}

#[test]
fn colored_headers_and_strings() {
    let out = render(true, |w| {
        w.section("s");
        w.array_section("a");
        w.kv_str("k", "v");
        w.kv_multiline("m", "x");
    });
    assert_eq!(
        out,
        "\x1b[38;2;210;168;255m[s]\x1b[0m\n\x1b[38;2;210;168;255m[[a]]\x1b[0m\n\
         \x1b[38;2;121;192;255mk\x1b[0m = \x1b[38;2;165;214;255m\"v\"\x1b[0m\n\
         \x1b[38;2;121;192;255mm\x1b[0m = \"\"\"\nx\n\"\"\"\n"
    );
}

#[test]
fn multiline_strings_end_in_one_line_end() {
    assert_eq!(
        render(false, |w| w.kv_multiline("m", "a\nb\n")),
        "m = \"\"\"\na\nb\n\"\"\"\n"
    );
    assert_eq!(
        render(false, |w| w.kv_multiline("m", "")),
        "m = \"\"\"\n\n\"\"\"\n"
    );
}

#[test]
fn every_integer_type_is_a_number() {
    let out = render(false, |w| {
        w.kv_num("a", u8::MAX);
        w.kv_num("b", u16::MAX);
        w.kv_num("c", u32::MAX);
        w.kv_num("d", u64::MAX);
        w.kv_num("e", u128::MAX);
        w.kv_num("f", 7usize);
        w.kv_num("g", i8::MIN);
        w.kv_num("h", i16::MIN);
        w.kv_num("i", i32::MIN);
        w.kv_num("j", i64::MIN);
        w.kv_num("k", i128::MIN);
        w.kv_num("l", -7isize);
    });
    assert_eq!(
        out,
        "a = 255\nb = 65535\nc = 4294967295\nd = 18446744073709551615\n\
         e = 340282366920938463463374607431768211455\nf = 7\ng = -128\nh = -32768\n\
         i = -2147483648\nj = -9223372036854775808\n\
         k = -170141183460469231731687303715884105728\nl = -7\n"
    );
}

#[test]
fn keys_are_unquoted() {
    let out = render(false, |w| {
        w.kv_key("first", Key::I64(-5), "");
        w.kv_key("last", Key::F64(1.5f64.to_bits()), "1.5");
    });
    assert_eq!(out, "first = -5\nlast = 1.5\n");
}

#[test]
fn control_characters_are_numbered() {
    assert_eq!(escape_string("a\u{1}b\u{7f}c\u{1b}"), "a\\u0001b\\u007fc\\u001b");
    assert_eq!(escape_string("\u{80}\u{e9}"), "\u{80}\u{e9}");
    assert_eq!(
        escape_multiline("a\u{1}\r\n\tb\u{7f}\u{0}"),
        "a\\u0001\r\n\tb\\u007f\\u0000"
    );
    assert_eq!(escape_multiline("a\rb\r\r\nc\r"), "a\\rb\\r\r\nc\r");
    let out = render(false, |w| {
        w.kv_str("title", "bell \u{7}");
        w.kv_multiline("text", "one\r\ntwo\u{8}");
    });
    assert_eq!(
        out,
        "title = \"bell \\u0007\"\ntext = \"\"\"\none\r\ntwo\\u0008\n\"\"\"\n"
    );
}

#[test]
fn numbers_that_are_none_have_a_word() {
    let out = render(false, |w| {
        w.kv_float("ratio", &f64::NAN.to_string());
        w.kv_float("largest", &f64::INFINITY.to_string());
        w.kv_float_array("all", &[f64::NAN.to_string(), "1.5".to_owned()]);
        w.kv_key("key", Key::F64(f64::NAN.to_bits()), &f64::NAN.to_string());
    });
    assert_eq!(out, "ratio = nan\nlargest = inf\nall = [nan, 1.5]\nkey = nan\n");
}

#[test]
fn names_that_are_no_bare_keys_are_quoted() {
    assert_eq!(quote_key("bid_size-2"), "bid_size-2");
    assert_eq!(quote_key("bid size"), "\"bid size\"");
    assert_eq!(quote_key("a.\"b\""), "\"a.\\\"b\\\"\"");
    assert_eq!(quote_key(""), "\"\"");
    assert_eq!(quote_key("caf\u{e9}"), "\"caf\u{e9}\"");
}

fn without_color(text: &str) -> String {
    let mut out = String::new();
    let mut inside = false;
    for ch in text.chars() {
        if inside {
            inside = ch != 'm';
        } else if ch == '\x1b' {
            inside = true;
        } else {
            out.push(ch);
        }
    }
    out
}

#[test]
fn color_can_be_taken_away() {
    let write = |w: &mut TomlWriter| {
        w.section("summary");
        w.kv_str("title", "\x1b[31mred\x1b[0m");
        w.blank();
        w.array_section("field");
        w.kv_num("bytes", 4);
        w.kv_multiline("text", "a\x1bm\nb");
    };
    let plain = render(false, write);
    let colored = render(true, write);
    assert_ne!(colored, plain);
    assert_eq!(without_color(&colored), plain);
}
