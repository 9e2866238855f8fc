use termdown::text::chars_of;
use termdown::wrap::join_words;
use termdown::wrap::measure_words;
use termdown::wrap::wrap_chars;
use termdown::wrap::wrap_text;
use termdown::wrap::wrap_words;
use termdown::wrap::MIN_CHAR_WIDTH;
use termdown::wrap::MIN_SPACE_WIDTH;

fn uniform(text: &str, advance: usize) -> Vec<usize> {
    vec![advance; text.chars().count()]
}

fn words(list: &[&str]) -> Vec<Vec<char>> {
    list.iter().map(|w| w.chars().collect()).collect()
}

/// The width of a line as the wrapper counts it, for one advance for every character.
fn line_width(line: &str, advance: usize, gap: usize) -> usize {
    let words: Vec<&str> = line.split(' ').collect();
    let letters: usize = words.iter().map(|w| w.chars().count() * advance).sum();
    letters + (words.len() - 1) * gap
}

#[test]
fn short_text_stays_on_one_line() {
    let lines = wrap_text("a b", &uniform("a b", 10), 4, 100);
    assert_eq!(lines, vec!["a b"]);
}

#[test]
fn two_wide_words_take_a_line_each() {
    let text = "aaaaaaaaaa bbbbbbbbbb";
    let lines = wrap_text(text, &uniform(text, 10), 10, 50);
    assert_eq!(lines, vec!["aaaaaaaaaa", "bbbbbbbbbb"]);
}

#[test]
fn empty_text_has_no_lines() {
    assert!(wrap_text("", &vec![], 4, 100).is_empty());
    assert!(wrap_text("  \n ", &uniform("  \n ", 10), 4, 100).is_empty());
}

#[test]
fn a_line_may_fill_the_width_exactly() {
    let text = "aa bb";
    assert_eq!(wrap_text(text, &uniform(text, 10), 4, 44), vec!["aa bb"]);
    assert_eq!(wrap_text(text, &uniform(text, 10), 4, 43), vec!["aa", "bb"]);
}

#[test]
fn a_gap_is_at_least_four_pixels_wide() {
    let text = "a b";
    assert_eq!(MIN_SPACE_WIDTH, 4);
    for space in [0, 1, 3, 4] {
        assert_eq!(wrap_text(text, &uniform(text, 10), space, 24), vec!["a b"]);
        assert_eq!(wrap_text(text, &uniform(text, 10), space, 23), vec!["a", "b"]);
    }
    assert_eq!(wrap_text(text, &uniform(text, 10), 5, 25), vec!["a b"]);
    assert_eq!(wrap_text(text, &uniform(text, 10), 5, 24), vec!["a", "b"]);
}

#[test]
fn a_character_is_at_least_one_pixel_wide() {
    let text = "ab cd";
    assert_eq!(MIN_CHAR_WIDTH, 1);
    assert_eq!(wrap_text(text, &uniform(text, 0), 4, 8), vec!["ab cd"]);
    assert_eq!(wrap_text(text, &uniform(text, 0), 4, 7), vec!["ab", "cd"]);
}

#[test]
fn a_word_wider_than_the_line_stands_alone() {
    let text = "aaaa b cc";
    assert_eq!(wrap_text(text, &uniform(text, 10), 4, 35), vec!["aaaa", "b cc"]);
    assert_eq!(wrap_text(text, &uniform(text, 10), 4, 0), vec!["aaaa", "b", "cc"]);
}

#[test]
fn whitespace_between_words_becomes_one_space() {
    let text = "  a \t b\nc  ";
    assert_eq!(wrap_text(text, &uniform(text, 10), 4, 1000), vec!["a b c"]);
}

#[test]
fn advances_are_taken_by_position() {
    let text = "ab cd";
    let advances = vec![1, 2, 100, 30, 40];
    assert_eq!(measure_words(&chars_of(text), &advances), vec![3u128, 70u128]);
    assert_eq!(wrap_text(text, &advances, 4, 77), vec!["ab cd"]);
    assert_eq!(wrap_text(text, &advances, 4, 76), vec!["ab", "cd"]);
}

#[test]
fn measure_words_skips_whitespace() {
    let text = " x  yz ";
    let advances = vec![9, 5, 9, 9, 0, 7, 9];
    assert_eq!(measure_words(&chars_of(text), &advances), vec![5u128, 8u128]);
    assert!(measure_words(&chars_of(""), &vec![]).is_empty());
}

#[test]
fn huge_advances_do_not_overflow() {
    let text = "ab cd e";
    let advances = uniform(text, usize::MAX);
    assert_eq!(
        measure_words(&chars_of(text), &advances),
        vec![2 * (usize::MAX as u128), 2 * (usize::MAX as u128), usize::MAX as u128]
    );
    assert_eq!(wrap_text(text, &advances, usize::MAX, usize::MAX), vec!["ab", "cd", "e"]);
}

#[test]
fn join_words_puts_single_spaces() {
    let list = words(&["one", "two", "three"]);
    assert_eq!(join_words(&list, 0, 3).iter().collect::<String>(), "one two three");
    assert_eq!(join_words(&list, 1, 2).iter().collect::<String>(), "two");
    assert_eq!(join_words(&list, 2, 2).iter().collect::<String>(), "");
}

#[test]
fn wrap_words_is_greedy() {
    let list = words(&["a", "b", "c", "d", "e"]);
    let widths: Vec<u128> = vec![10, 10, 10, 10, 10];
    let lines: Vec<String> = wrap_words(&list, &widths, 5, 40).iter().map(|l| l.iter().collect()).collect();
    assert_eq!(lines, vec!["a b c", "d e"]);
    let none: Vec<Vec<char>> = Vec::new();
    assert!(wrap_words(&none, &vec![], 5, 40).is_empty());
}

#[test]
fn wrap_chars_agrees_with_wrap_text() {
    let text = "the quick brown fox jumps over the lazy dog";
    let advances = uniform(text, 7);
    let by_chars: Vec<String> =
        wrap_chars(&chars_of(text), &advances, 3, 60).iter().map(|l| l.iter().collect()).collect();
    assert_eq!(by_chars, wrap_text(text, &advances, 3, 60));
}

#[test]
fn every_line_keeps_to_the_budget_unless_it_is_one_word() {
    let text = "lorem ipsum dolor sit amet consectetur adipiscing elit sed do eiusmod tempor";
    for max_width in [0usize, 10, 35, 50, 64, 80, 120, 1000] {
        for line in wrap_text(text, &uniform(text, 5), 4, max_width) {
            let single = !line.contains(' ');
            assert!(line_width(&line, 5, 4) <= max_width || single, "{:?} at {}", line, max_width);
        }
    }
}

#[test]
fn every_line_is_full() {
    let text = "lorem ipsum dolor sit amet consectetur adipiscing elit sed do eiusmod tempor";
    for max_width in [10usize, 35, 50, 64, 80, 120] {
        let lines = wrap_text(text, &uniform(text, 5), 4, max_width);
        for k in 0..lines.len() - 1 {
            let next = lines[k + 1].split(' ').next().unwrap();
            let longer = format!("{} {}", lines[k], next);
            assert!(line_width(&longer, 5, 4) > max_width);
        }
    }
}

#[test]
fn wrapping_keeps_the_words_in_order() {
    let text = "  lorem ipsum\tdolor sit\namet   consectetur adipiscing elit ";
    let expected_words: Vec<&str> = text.split_whitespace().collect();
    for max_width in [0usize, 20, 40, 75, 1000] {
        let lines = wrap_text(text, &uniform(text, 5), 4, max_width);
        let joined = lines.join(" ");
        let again: Vec<&str> = joined.split_whitespace().collect();
        assert_eq!(again, expected_words);
        assert!(lines.iter().all(|l| !l.is_empty()));
    }
}

#[test]
fn line_widths_add_advances_and_gaps() {
    let text = "ab cde f";
    let advances = vec![3, 4, 0, 5, 6, 7, 0, 8];
    // widths 7, 18, 8 with gaps of 4: 7 + 4 + 18 = 29, 29 + 4 + 8 = 41
    assert_eq!(wrap_text(text, &advances, 2, 41), vec!["ab cde f"]);
    assert_eq!(wrap_text(text, &advances, 2, 40), vec!["ab cde", "f"]);
    assert_eq!(wrap_text(text, &advances, 2, 29), vec!["ab cde", "f"]);
    assert_eq!(wrap_text(text, &advances, 2, 28), vec!["ab", "cde", "f"]);
    assert_eq!(wrap_text(text, &advances, 2, 30), vec!["ab cde", "f"]);
}

#[test]
fn no_grouping_that_keeps_to_the_budget_has_fewer_lines() {
    let text = "aa b cccc d ee fff g";
    let words: Vec<&str> = text.split(' ').collect();
    for max_width in [0usize, 10, 14, 19, 24, 30, 45, 200] {
        let lines = wrap_text(text, &uniform(text, 5), 4, max_width);
        let mut fewest = words.len();
        // each bit of `breaks` says whether a line ends behind the word of that index
        for breaks in 0u32..(1 << (words.len() - 1)) {
            let mut groups: Vec<String> = vec![String::new()];
            for (i, word) in words.iter().enumerate() {
                let last = groups.last_mut().unwrap();
                if !last.is_empty() {
                    last.push(' ');
                }
                last.push_str(word);
                if i + 1 < words.len() && breaks & (1 << i) != 0 {
                    groups.push(String::new());
                }
            }
            let valid = groups.iter().all(|g| !g.contains(' ') || line_width(g, 5, 4) <= max_width);
            if valid && groups.len() < fewest {
                fewest = groups.len();
            }
        }
        assert_eq!(lines.len(), fewest, "at {}", max_width);
    }
}
