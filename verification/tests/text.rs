use termdown::text::blank;
use termdown::text::char_is_whitespace;
use termdown::text::chars_of;
use termdown::text::digit_char;
use termdown::text::lines;
use termdown::text::push_chars;
use termdown::text::push_decimal;
use termdown::text::push_repeat;
use termdown::text::same_chars;
use termdown::text::slice_of;
use termdown::text::split_whitespace;
use termdown::text::starts_with;
use termdown::text::string_of;

fn chars(s: &str) -> Vec<char> {
    s.chars().collect()
}

fn strings(parts: &Vec<Vec<char>>) -> Vec<String> {
    parts.iter().map(|p| p.iter().collect()).collect()
}

#[test]
fn chars_of_gives_each_character_once() {
    assert_eq!(chars_of(""), Vec::<char>::new());
    assert_eq!(chars_of("a\u{2588}b"), vec!['a', '\u{2588}', 'b']);
}

#[test]
fn string_of_undoes_chars_of() {
    let text = "caf\u{e9} \u{2580}\u{2584}\n";
    assert_eq!(string_of(&chars_of(text)), text);
}

#[test]
fn push_chars_appends() {
    let mut out = String::from("ab");
    push_chars(&mut out, &chars("cd"));
    assert_eq!(out, "abcd");
}

#[test]
fn slice_of_takes_the_half_open_range() {
    let text = chars("abcdef");
    assert_eq!(slice_of(&text, 1, 4), chars("bcd"));
    assert_eq!(slice_of(&text, 2, 2), chars(""));
    assert_eq!(slice_of(&text, 0, 6), text);
}

#[test]
fn whitespace_is_the_unicode_property() {
    let mut code: u32 = 0;
    while code <= 0x10FFFF {
        if let Some(c) = char::from_u32(code) {
            assert_eq!(char_is_whitespace(c), c.is_whitespace(), "U+{:04X}", code);
        }
        code += 1;
    }
}

#[test]
fn whitespace_examples() {
    assert!(char_is_whitespace(' '));
    assert!(char_is_whitespace('\t'));
    assert!(char_is_whitespace('\n'));
    assert!(char_is_whitespace('\u{a0}'));
    assert!(char_is_whitespace('\u{3000}'));
    assert!(!char_is_whitespace('a'));
    assert!(!char_is_whitespace('\u{200b}'));
    assert!(!char_is_whitespace('\u{2588}'));
}

#[test]
fn blank_texts() {
    assert!(blank(&chars("")));
    assert!(blank(&chars(" \t \u{2003}")));
    assert!(!blank(&chars("  x ")));
}

#[test]
fn same_chars_compares_contents() {
    assert!(same_chars(&chars("src"), &chars("src")));
    assert!(!same_chars(&chars("src"), &chars("sra")));
    assert!(!same_chars(&chars("src"), &chars("sr")));
    assert!(same_chars(&chars(""), &chars("")));
}

#[test]
fn starts_with_prefixes() {
    assert!(starts_with(&chars("# Title"), &chars("# ")));
    assert!(!starts_with(&chars("#Title"), &chars("# ")));
    assert!(!starts_with(&chars("#"), &chars("# ")));
    assert!(starts_with(&chars("anything"), &chars("")));
}

#[test]
fn split_whitespace_agrees_with_std() {
    let samples = [
        "",
        "   ",
        "word",
        "  hello   world ",
        "a\tb\nc\r\nd",
        "a\u{3000}b\u{a0}c",
        "one two  three   four",
        " \u{2588}\u{2588} \u{2580} ",
    ];
    for sample in samples {
        let expected: Vec<String> = sample.split_whitespace().map(|w| w.to_string()).collect();
        assert_eq!(strings(&split_whitespace(&chars(sample))), expected, "{:?}", sample);
    }
}

#[test]
fn split_whitespace_keeps_order_and_drops_empty_words() {
    assert_eq!(
        strings(&split_whitespace(&chars("  the quick\tbrown  fox "))),
        vec!["the", "quick", "brown", "fox"]
    );
}

#[test]
fn lines_agree_with_std() {
    let samples = [
        "",
        "a",
        "a\n",
        "a\nb",
        "a\nb\n",
        "\n",
        "\n\n",
        "a\n\nb",
        "a\r\nb\r\n",
        "a\r",
        "a\r\n",
        "\r\n",
        "a\rb\n",
        "a\r\r\n",
        "\r",
        "x\n\r\ny",
        "\u{2588}\u{2588}\n\u{2580}\n",
    ];
    for sample in samples {
        let expected: Vec<String> = sample.lines().map(|l| l.to_string()).collect();
        assert_eq!(strings(&lines(&chars(sample))), expected, "{:?}", sample);
    }
}

#[test]
fn lines_drop_one_carriage_return_before_a_line_feed() {
    assert_eq!(strings(&lines(&chars("a\r\nb\r"))), vec!["a", "b\r"]);
    assert_eq!(strings(&lines(&chars("a\r\r\n"))), vec!["a\r"]);
}

#[test]
fn lines_have_no_empty_last_line() {
    assert_eq!(strings(&lines(&chars("a\n"))), vec!["a"]);
    assert_eq!(strings(&lines(&chars("a\n\n"))), vec!["a", ""]);
    assert!(lines(&chars("")).is_empty());
}

#[test]
fn push_repeat_appends_copies() {
    let mut out = String::from("x");
    push_repeat(&mut out, '#', 3);
    push_repeat(&mut out, '!', 0);
    assert_eq!(out, "x###");
}

#[test]
fn digit_chars() {
    let expected = ['0', '1', '2', '3', '4', '5', '6', '7', '8', '9'];
    for d in 0..10 {
        assert_eq!(digit_char(d), expected[d]);
    }
}

#[test]
fn push_decimal_writes_numbers() {
    for n in [0usize, 7, 9, 10, 11, 99, 100, 101, 12345, 1000000, usize::MAX] {
        let mut out = String::from("n=");
        push_decimal(&mut out, n);
        assert_eq!(out, format!("n={}", n));
    }
}
