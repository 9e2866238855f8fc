use crate::text::char_is_whitespace;
use crate::text::chars_of;
use crate::text::is_whitespace;
use crate::text::join;
use crate::text::lemma_join_concat;
use crate::text::lemma_split_join;
use crate::text::lemma_word_end_bounds;
use crate::text::lemma_words_are_words;
use crate::text::split_whitespace;
use crate::text::split_words;
use crate::text::string_of;
use crate::text::texts;
use crate::text::views;
use crate::text::word_end;
use crate::text::words_from;
use vstd::prelude::*;

verus! {

/// The least width that a gap between two words is given.
pub const MIN_SPACE_WIDTH: usize = 4;

/// The least width that a character of a word is given.
pub const MIN_CHAR_WIDTH: usize = 1;

/// What separates the words of a line.
pub open spec fn space() -> Seq<char> {
    seq![' ']
}

/// The width of a gap between two words, from the advance of the space character.
pub open spec fn space_width(advance: usize) -> int {
    if advance < MIN_SPACE_WIDTH {
        MIN_SPACE_WIDTH as int
    } else {
        advance as int
    }
}

/// The width of a character of a word, from its advance.
pub open spec fn char_width(advance: usize) -> int {
    if advance < MIN_CHAR_WIDTH {
        MIN_CHAR_WIDTH as int
    } else {
        advance as int
    }
}

/// The width of the characters from index `from` up to, not including, index `to`.
pub open spec fn run_width(advances: Seq<usize>, from: int, to: int) -> int
    decreases to - from,
{
    if to <= from {
        0
    } else {
        run_width(advances, from, to - 1) + char_width(advances[to - 1])
    }
}

/// The widths of the words of `s` that begin at index `i` or later, where `advances`
/// holds the advance of each character of `s`.
pub open spec fn word_widths_from(s: Seq<char>, advances: Seq<usize>, i: int) -> Seq<int>
    decreases s.len() - i,
    via word_widths_from_decreases
{
    if !(0 <= i < s.len()) {
        Seq::empty()
    } else if is_whitespace(s[i]) {
        word_widths_from(s, advances, i + 1)
    } else {
        seq![run_width(advances, i, word_end(s, i))] + word_widths_from(
            s,
            advances,
            word_end(s, i),
        )
    }
}

#[via_fn]
proof fn word_widths_from_decreases(s: Seq<char>, advances: Seq<usize>, i: int) {
    if 0 <= i < s.len() && !is_whitespace(s[i]) {
        lemma_word_end_bounds(s, i);
    }
}

/// The width of each word of `s`, where `advances` holds the advance of each character
/// of `s`.
pub open spec fn word_widths(s: Seq<char>, advances: Seq<usize>) -> Seq<int> {
    word_widths_from(s, advances, 0)
}

/// Where a line stops that holds the words before index `j` at width `used`: at the
/// first word from `j` on that no longer fits behind a gap, or after the last word.
pub open spec fn line_stop(widths: Seq<int>, gap: int, max_width: int, used: int, j: int) -> int
    decreases widths.len() - j,
{
    if 0 <= j < widths.len() && used + gap + widths[j] <= max_width {
        line_stop(widths, gap, max_width, used + gap + widths[j], j + 1)
    } else {
        j
    }
}

/// A line stops at or after the index it has reached, and within the words.
pub proof fn lemma_line_stop_bounds(widths: Seq<int>, gap: int, max_width: int, used: int, j: int)
    requires
        0 <= j <= widths.len(),
    ensures
        j <= line_stop(widths, gap, max_width, used, j) <= widths.len(),
    decreases widths.len() - j,
{
    if j < widths.len() && used + gap + widths[j] <= max_width {
        lemma_line_stop_bounds(widths, gap, max_width, used + gap + widths[j], j + 1);
    }
}

/// Where the line stops that begins with word `start`. Its first word is placed whatever
/// its width.
pub open spec fn line_end(widths: Seq<int>, gap: int, max_width: int, start: int) -> int {
    line_stop(widths, gap, max_width, widths[start], start + 1)
}

/// The lines from word `start` on, each as the index of its first word and the index
/// after its last.
pub open spec fn line_spans(
    widths: Seq<int>,
    gap: int,
    max_width: int,
    start: int,
) -> Seq<(int, int)>
    decreases widths.len() - start,
    via line_spans_decreases
{
    if !(0 <= start < widths.len()) {
        Seq::empty()
    } else {
        seq![(start, line_end(widths, gap, max_width, start))] + line_spans(
            widths,
            gap,
            max_width,
            line_end(widths, gap, max_width, start),
        )
    }
}

#[via_fn]
proof fn line_spans_decreases(widths: Seq<int>, gap: int, max_width: int, start: int) {
    if 0 <= start < widths.len() {
        lemma_line_stop_bounds(widths, gap, max_width, widths[start], start + 1);
    }
}

/// The text of a line: its words with one space between each two.
pub open spec fn line_text(words: Seq<Seq<char>>, span: (int, int)) -> Seq<char> {
    join(words.subrange(span.0, span.1), space())
}

/// The texts of the lines from word `start` on.
pub open spec fn line_texts(
    words: Seq<Seq<char>>,
    widths: Seq<int>,
    gap: int,
    max_width: int,
    start: int,
) -> Seq<Seq<char>> {
    line_spans(widths, gap, max_width, start).map_values(|span: (int, int)| line_text(words, span))
}

/// The lines into which words of the given widths are wrapped: each line takes as many
/// of the remaining words as fit into `max_width` with a gap between each two, and at
/// least one.
pub open spec fn wrap_lines(
    words: Seq<Seq<char>>,
    widths: Seq<int>,
    gap: int,
    max_width: int,
) -> Seq<Seq<char>> {
    line_texts(words, widths, gap, max_width, 0)
}

/// The lines into which a text is wrapped, where `advances` holds the advance of each of
/// its characters and `space_advance` that of the space character.
pub open spec fn wrapped(
    text: Seq<char>,
    advances: Seq<usize>,
    space_advance: usize,
    max_width: usize,
) -> Seq<Seq<char>> {
    wrap_lines(
        split_words(text),
        word_widths(text, advances),
        space_width(space_advance),
        max_width as int,
    )
}

/// The widths as integers.
pub open spec fn as_ints(widths: Seq<u128>) -> Seq<int> {
    widths.map_values(|w: u128| w as int)
}

/// No run of characters is wider than its length times the greatest advance.
pub proof fn lemma_run_width_bounds(advances: Seq<usize>, from: int, to: int)
    requires
        from <= to,
    ensures
        to - from <= run_width(advances, from, to) <= (to - from) * 0xFFFF_FFFF_FFFF_FFFF,
    decreases to - from,
{
    if from < to {
        lemma_run_width_bounds(advances, from, to - 1);
    }
}

/// Measures the words of a text: the width of each, from the advance of each character.
pub fn measure_words(s: &Vec<char>, advances: &Vec<usize>) -> (widths: Vec<u128>)
    requires
        advances.len() == s.len(),
    ensures
        as_ints(widths@) == word_widths(s@, advances@),
{
    let mut widths: Vec<u128> = Vec::new();
    let mut i: usize = 0;
    assert(as_ints(widths@) =~= Seq::<int>::empty());
    while i < s.len()
        invariant
            i <= s.len(),
            advances.len() == s.len(),
            word_widths(s@, advances@) == as_ints(widths@) + word_widths_from(
                s@,
                advances@,
                i as int,
            ),
        decreases s.len() - i,
    {
        if char_is_whitespace(s[i]) {
            i += 1;
        } else {
            let start = i;
            let mut width: u128 = 0;
            while i < s.len() && !char_is_whitespace(s[i])
                invariant
                    start <= i <= s.len(),
                    advances.len() == s.len(),
                    word_end(s@, start as int) == word_end(s@, i as int),
                    width == run_width(advances@, start as int, i as int),
                decreases s.len() - i,
            {
                proof {
                    lemma_run_width_bounds(advances@, start as int, i as int);
                }
                let advance = advances[i];
                width = width + if advance < MIN_CHAR_WIDTH {
                    MIN_CHAR_WIDTH as u128
                } else {
                    advance as u128
                };
                i += 1;
            }
            let ghost before = as_ints(widths@);
            widths.push(width);
            assert(as_ints(widths@) =~= before.push(width as int));
            assert(before + (seq![width as int] + word_widths_from(s@, advances@, i as int))
                =~= before.push(width as int) + word_widths_from(s@, advances@, i as int));
        }
    }
    widths
}

/// The words from index `from` up to, not including, index `to`, with one space between
/// each two.
pub fn join_words(words: &Vec<Vec<char>>, from: usize, to: usize) -> (line: Vec<char>)
    requires
        from <= to <= words.len(),
    ensures
        line@ == join(views(words@).subrange(from as int, to as int), space()),
{
    let mut line: Vec<char> = Vec::new();
    let mut i: usize = from;
    while i < to
        invariant
            from <= i <= to <= words.len(),
            line@ == join(views(words@).subrange(from as int, i as int), space()),
        decreases to - i,
    {
        let ghost done = views(words@).subrange(from as int, i as int);
        let ghost next = views(words@).subrange(from as int, i + 1);
        assert(next.drop_last() =~= done);
        assert(next.last() == words@[i as int]@);
        if i > from {
            line.push(' ');
        }
        let word = &words[i];
        let mut j: usize = 0;
        let ghost base = line@;
        while j < word.len()
            invariant
                j <= word.len(),
                line@ == base + word@.subrange(0, j as int),
            decreases word.len() - j,
        {
            line.push(word[j]);
            assert(word@.subrange(0, j + 1) =~= word@.subrange(0, j as int).push(word@[j as int]));
            j += 1;
        }
        assert(word@.subrange(0, word.len() as int) =~= word@);
        assert(line@ =~= join(next, space()));
        i += 1;
    }
    line
}

/// Wraps words of the given widths into lines no wider than `max_width`, with gaps of
/// width `gap`. A word that is wider than `max_width` has a line to itself.
pub fn wrap_words(
    words: &Vec<Vec<char>>,
    widths: &Vec<u128>,
    gap: usize,
    max_width: usize,
) -> (lines: Vec<Vec<char>>)
    requires
        widths.len() == words.len(),
    ensures
        views(lines@) == wrap_lines(views(words@), as_ints(widths@), gap as int, max_width as int),
{
    let ghost ws = as_ints(widths@);
    let mut lines: Vec<Vec<char>> = Vec::new();
    let mut start: usize = 0;
    assert(views(lines@) =~= Seq::<Seq<char>>::empty());
    while start < words.len()
        invariant
            start <= words.len(),
            widths.len() == words.len(),
            ws == as_ints(widths@),
            ws.len() == widths.len(),
            wrap_lines(views(words@), ws, gap as int, max_width as int) == views(lines@)
                + line_texts(views(words@), ws, gap as int, max_width as int, start as int),
        decreases words.len() - start,
    {
        let mut used: u128 = widths[start];
        let mut end: usize = start + 1;
        while end < words.len() && fits(used, gap, widths[end], max_width)
            invariant
                start < end <= words.len(),
                widths.len() == words.len(),
                ws == as_ints(widths@),
                line_end(ws, gap as int, max_width as int, start as int) == line_stop(
                    ws,
                    gap as int,
                    max_width as int,
                    used as int,
                    end as int,
                ),
            decreases words.len() - end,
        {
            used = used + gap as u128 + widths[end];
            end += 1;
        }
        let line = join_words(words, start, end);
        let ghost before = views(lines@);
        let ghost rest = line_texts(views(words@), ws, gap as int, max_width as int, end as int);
        proof {
            lemma_line_texts_unfold(views(words@), ws, gap as int, max_width as int, start as int);
        }
        lines.push(line);
        assert(views(lines@) =~= before.push(line@));
        assert(before + (seq![line@] + rest) =~= before.push(line@) + rest);
        start = end;
    }
    assert(line_texts(views(words@), ws, gap as int, max_width as int, start as int)
        =~= Seq::<Seq<char>>::empty());
    lines
}

/// Tells whether a word of width `word` fits behind a gap on a line that is `used` wide.
fn fits(used: u128, gap: usize, word: u128, max_width: usize) -> (b: bool)
    ensures
        b == (used + gap + word <= max_width),
{
    if used > max_width as u128 {
        return false;
    }
    let left = max_width as u128 - used;
    if gap as u128 > left {
        return false;
    }
    word <= left - gap as u128
}

/// Wraps a text into lines no wider than `max_width`, where `advances` holds the advance
/// of each of its characters and `space_advance` that of the space character.
pub fn wrap_chars(
    text: &Vec<char>,
    advances: &Vec<usize>,
    space_advance: usize,
    max_width: usize,
) -> (lines: Vec<Vec<char>>)
    requires
        advances.len() == text.len(),
    ensures
        views(lines@) == wrapped(text@, advances@, space_advance, max_width),
{
    let words = split_whitespace(text);
    let widths = measure_words(text, advances);
    let gap = if space_advance < MIN_SPACE_WIDTH {
        MIN_SPACE_WIDTH
    } else {
        space_advance
    };
    proof {
        lemma_word_widths_len(text@, advances@, 0);
        assert(as_ints(widths@).len() == widths@.len());
        assert(views(words@).len() == words@.len());
    }
    wrap_words(&words, &widths, gap, max_width)
}

/// A text has as many word widths as words.
pub proof fn lemma_word_widths_len(s: Seq<char>, advances: Seq<usize>, i: int)
    ensures
        word_widths_from(s, advances, i).len() == words_from(s, i).len(),
    decreases s.len() - i,
{
    if 0 <= i < s.len() {
        if is_whitespace(s[i]) {
            lemma_word_widths_len(s, advances, i + 1);
        } else {
            lemma_word_end_bounds(s, i);
            lemma_word_widths_len(s, advances, word_end(s, i));
        }
    }
}

/// Wraps a text into lines no wider than `max_width` pixels. `advances` holds the
/// advance of each character of the text, `space_advance` that of the space character.
/// A gap between two words is at least 4 pixels wide, a character of a word at least 1.
/// A word that is wider than `max_width` has a line to itself.
pub fn wrap_text(
    text: &str,
    advances: &Vec<usize>,
    space_advance: usize,
    max_width: usize,
) -> (lines: Vec<String>)
    requires
        advances.len() == text@.len(),
    ensures
        texts(lines@) == wrapped(text@, advances@, space_advance, max_width),
{
    let chars = chars_of(text);
    let wrapped_lines = wrap_chars(&chars, advances, space_advance, max_width);
    let mut lines: Vec<String> = Vec::new();
    let mut i: usize = 0;
    while i < wrapped_lines.len()
        invariant
            i <= wrapped_lines.len(),
            texts(lines@) == views(wrapped_lines@).subrange(0, i as int),
        decreases wrapped_lines.len() - i,
    {
        let line = string_of(&wrapped_lines[i]);
        let ghost before = texts(lines@);
        lines.push(line);
        assert(texts(lines@) =~= before.push(line@));
        assert(views(wrapped_lines@).subrange(0, i + 1) =~= views(wrapped_lines@).subrange(
            0,
            i as int,
        ).push(wrapped_lines@[i as int]@));
        i += 1;
    }
    assert(views(wrapped_lines@).subrange(0, wrapped_lines.len() as int) =~= views(wrapped_lines@));
    lines
}

/// The width of the words from index `from` up to, not including, index `to`, with a
/// gap between each two.
pub open spec fn span_width(widths: Seq<int>, gap: int, from: int, to: int) -> int
    decreases to - from,
{
    if to <= from {
        0
    } else if to == from + 1 {
        widths[from]
    } else {
        span_width(widths, gap, from, to - 1) + gap + widths[to - 1]
    }
}

/// Whether the line of words `span.0` up to `span.1` keeps to the budget: it is no
/// wider than `max_width`, or it is a single word.
pub open spec fn within_budget(
    widths: Seq<int>,
    gap: int,
    max_width: int,
    span: (int, int),
) -> bool {
    span_width(widths, gap, span.0, span.1) <= max_width || span.1 == span.0 + 1
}

/// Whether the line of words `span.0` up to `span.1` is full: the next word, if there is
/// one, does not fit behind it.
pub open spec fn is_full(widths: Seq<int>, gap: int, max_width: int, span: (int, int)) -> bool {
    span.1 < widths.len() ==> span_width(widths, gap, span.0, span.1) + gap + widths[span.1]
        > max_width
}

/// A line that keeps to the budget with the words it holds keeps to it where it stops,
/// and is full there.
proof fn lemma_line_stop_fits(
    widths: Seq<int>,
    gap: int,
    max_width: int,
    start: int,
    used: int,
    j: int,
)
    requires
        0 <= start < j <= widths.len(),
        used == span_width(widths, gap, start, j),
        used <= max_width || j == start + 1,
    ensures
        within_budget(
            widths,
            gap,
            max_width,
            (start, line_stop(widths, gap, max_width, used, j)),
        ),
        is_full(widths, gap, max_width, (start, line_stop(widths, gap, max_width, used, j))),
    decreases widths.len() - j,
{
    if j < widths.len() && used + gap + widths[j] <= max_width {
        lemma_line_stop_fits(widths, gap, max_width, start, used + gap + widths[j], j + 1);
    }
}

/// The lines from word `start` on take the words in order, each at least one and none
/// left out; each line keeps to the budget and is full.
pub proof fn lemma_line_spans(widths: Seq<int>, gap: int, max_width: int, start: int)
    requires
        0 <= start <= widths.len(),
    ensures
        ({
            let spans = line_spans(widths, gap, max_width, start);
            &&& start < widths.len() ==> spans.len() > 0 && spans[0].0 == start && spans.last().1
                == widths.len()
            &&& start == widths.len() ==> spans.len() == 0
            &&& forall|k: int|
                0 <= k < spans.len() ==> start <= (#[trigger] spans[k]).0 < spans[k].1
                    <= widths.len()
            &&& forall|k: int|
                0 <= k < spans.len() - 1 ==> (#[trigger] spans[k]).1 == spans[k + 1].0
            &&& forall|k: int|
                0 <= k < spans.len() ==> within_budget(widths, gap, max_width, #[trigger] spans[k])
            &&& forall|k: int|
                0 <= k < spans.len() ==> is_full(widths, gap, max_width, #[trigger] spans[k])
        }),
    decreases widths.len() - start,
{
    if start < widths.len() {
        let end = line_end(widths, gap, max_width, start);
        lemma_line_stop_bounds(widths, gap, max_width, widths[start], start + 1);
        lemma_line_stop_fits(widths, gap, max_width, start, widths[start], start + 1);
        lemma_line_spans(widths, gap, max_width, end);
        let rest = line_spans(widths, gap, max_width, end);
        let spans = line_spans(widths, gap, max_width, start);
        assert(spans =~= seq![(start, end)] + rest);
        assert forall|k: int| 0 <= k < spans.len() - 1 implies (#[trigger] spans[k]).1 == spans[k
            + 1].0 by {
            if k > 0 {
                assert(spans[k] == rest[k - 1]);
                assert(spans[k + 1] == rest[k]);
            }
        }
        assert forall|k: int| 0 <= k < spans.len() implies start <= (#[trigger] spans[k]).0
            < spans[k].1 <= widths.len() && within_budget(widths, gap, max_width, spans[k])
            && is_full(widths, gap, max_width, spans[k]) by {
            if k > 0 {
                assert(spans[k] == rest[k - 1]);
            }
        }
    }
}

/// Where group `k` of a grouping begins whose groups end at `ends`: at the first word,
/// or where the group before it ends.
pub open spec fn group_start(ends: Seq<int>, k: int) -> int {
    if k <= 0 {
        0
    } else {
        ends[k - 1]
    }
}

/// Whether `ends` groups the words into lines: each group takes at least one word and
/// begins where the one before it ends, the last one ends with the last word, and
/// each keeps to the budget.
pub open spec fn is_grouping(widths: Seq<int>, gap: int, max_width: int, ends: Seq<int>) -> bool {
    &&& widths.len() > 0 ==> ends.len() > 0 && ends.last() == widths.len()
    &&& forall|k: int|
        0 <= k < ends.len() ==> group_start(ends, k) < #[trigger] ends[k] <= widths.len()
    &&& forall|k: int|
        0 <= k < ends.len() ==> within_budget(
            widths,
            gap,
            max_width,
            (group_start(ends, k), #[trigger] ends[k]),
        )
}

/// A run of words is no wider than a longer run with the same first word.
proof fn lemma_span_width_grows(widths: Seq<int>, gap: int, from: int, to: int, longer: int)
    requires
        0 <= from <= to <= longer <= widths.len(),
        gap >= 0,
        forall|i: int| 0 <= i < widths.len() ==> #[trigger] widths[i] >= 0,
    ensures
        0 <= span_width(widths, gap, from, to) <= span_width(widths, gap, from, longer),
    decreases longer - from,
{
    if from < longer {
        if to < longer {
            lemma_span_width_grows(widths, gap, from, to, longer - 1);
        } else {
            lemma_span_width_grows(widths, gap, from, from, longer - 1);
        }
    }
}

/// A run of words is no wider than a run with the same last word that begins earlier.
proof fn lemma_span_width_shrinks(widths: Seq<int>, gap: int, earlier: int, from: int, to: int)
    requires
        0 <= earlier <= from <= to <= widths.len(),
        gap >= 0,
        forall|i: int| 0 <= i < widths.len() ==> #[trigger] widths[i] >= 0,
    ensures
        span_width(widths, gap, from, to) <= span_width(widths, gap, earlier, to),
    decreases to - from,
{
    if from < to {
        lemma_span_width_shrinks(widths, gap, earlier, from, to - 1);
        lemma_span_width_grows(widths, gap, earlier, earlier, to - 1);
        if to - 1 == from && earlier < from {
            assert(span_width(widths, gap, earlier, to) == span_width(widths, gap, earlier, to - 1)
                + gap + widths[to - 1]);
        }
    } else {
        lemma_span_width_grows(widths, gap, earlier, earlier, to);
    }
}

/// A line does not stop before a word up to which its words fit.
proof fn lemma_line_stop_reaches(
    widths: Seq<int>,
    gap: int,
    max_width: int,
    start: int,
    used: int,
    j: int,
    target: int,
)
    requires
        0 <= start < j <= target <= widths.len(),
        gap >= 0,
        forall|i: int| 0 <= i < widths.len() ==> #[trigger] widths[i] >= 0,
        used == span_width(widths, gap, start, j),
        span_width(widths, gap, start, target) <= max_width,
    ensures
        line_stop(widths, gap, max_width, used, j) >= target,
    decreases target - j,
{
    lemma_line_stop_bounds(widths, gap, max_width, used, j);
    if j < target {
        lemma_span_width_grows(widths, gap, start, j + 1, target);
        assert(span_width(widths, gap, start, j + 1) == used + gap + widths[j]);
        lemma_line_stop_reaches(
            widths,
            gap,
            max_width,
            start,
            used + gap + widths[j],
            j + 1,
            target,
        );
    }
}

/// The lines from word `start` on are no more than the groups that a grouping still
/// has to come, where it has not passed `start` with the `k` groups before.
proof fn lemma_lines_no_more(
    widths: Seq<int>,
    gap: int,
    max_width: int,
    start: int,
    ends: Seq<int>,
    k: int,
)
    requires
        gap >= 0,
        forall|i: int| 0 <= i < widths.len() ==> #[trigger] widths[i] >= 0,
        is_grouping(widths, gap, max_width, ends),
        0 <= k <= ends.len(),
        0 <= group_start(ends, k) <= start <= widths.len(),
    ensures
        line_spans(widths, gap, max_width, start).len() <= ends.len() - k,
    decreases widths.len() - start,
{
    if start < widths.len() {
        assert(k < ends.len()) by {
            if k == ends.len() {
                assert(ends.last() == ends[k - 1]);
            }
        }
        let end = line_end(widths, gap, max_width, start);
        lemma_line_stop_bounds(widths, gap, max_width, widths[start], start + 1);
        let begin = group_start(ends, k);
        let other = ends[k];
        assert(within_budget(widths, gap, max_width, (begin, other)));
        if other > start + 1 {
            lemma_span_width_shrinks(widths, gap, begin, start, other);
            lemma_line_stop_reaches(
                widths,
                gap,
                max_width,
                start,
                widths[start],
                start + 1,
                other,
            );
        }
        assert(group_start(ends, k + 1) == other);
        lemma_lines_no_more(widths, gap, max_width, end, ends, k + 1);
    }
}

/// Wrapping words makes the fewest lines: no grouping of the words into lines that
/// keep to the budget has fewer groups than there are wrapped lines.
pub proof fn lemma_fewest_lines(
    words: Seq<Seq<char>>,
    widths: Seq<int>,
    gap: int,
    max_width: int,
    ends: Seq<int>,
)
    requires
        gap >= 0,
        forall|i: int| 0 <= i < widths.len() ==> #[trigger] widths[i] >= 0,
        is_grouping(widths, gap, max_width, ends),
    ensures
        wrap_lines(words, widths, gap, max_width).len() <= ends.len(),
{
    lemma_lines_no_more(widths, gap, max_width, 0, ends, 0);
}

/// Every word of a text is at least as wide as it has characters.
pub proof fn lemma_word_widths_positive(s: Seq<char>, advances: Seq<usize>, i: int)
    ensures
        forall|k: int|
            0 <= k < word_widths_from(s, advances, i).len() ==> #[trigger] word_widths_from(
                s,
                advances,
                i,
            )[k] >= 1,
    decreases s.len() - i,
{
    if 0 <= i < s.len() {
        if is_whitespace(s[i]) {
            lemma_word_widths_positive(s, advances, i + 1);
            assert(word_widths_from(s, advances, i) == word_widths_from(s, advances, i + 1));
        } else {
            lemma_word_end_bounds(s, i);
            lemma_run_width_bounds(advances, i, word_end(s, i));
            lemma_word_widths_positive(s, advances, word_end(s, i));
            let rest = word_widths_from(s, advances, word_end(s, i));
            let first = run_width(advances, i, word_end(s, i));
            assert(word_widths_from(s, advances, i) == seq![first] + rest);
            assert forall|k: int|
                0 <= k < word_widths_from(s, advances, i).len() implies #[trigger] word_widths_from(
                s,
                advances,
                i,
            )[k] >= 1 by {
                if k > 0 {
                    assert(word_widths_from(s, advances, i)[k] == rest[k - 1]);
                    assert(rest[k - 1] >= 1);
                } else {
                    assert(word_widths_from(s, advances, i)[k] == first);
                }
            }
        }
    }
}

/// Wrapping a text makes the fewest lines: no grouping of its words into lines that
/// keep to the budget has fewer groups than there are wrapped lines.
pub proof fn lemma_wrap_fewest_lines(
    text: Seq<char>,
    advances: Seq<usize>,
    space_advance: usize,
    max_width: usize,
    ends: Seq<int>,
)
    requires
        is_grouping(
            word_widths(text, advances),
            space_width(space_advance),
            max_width as int,
            ends,
        ),
    ensures
        wrapped(text, advances, space_advance, max_width).len() <= ends.len(),
{
    lemma_word_widths_positive(text, advances, 0);
    lemma_fewest_lines(
        split_words(text),
        word_widths(text, advances),
        space_width(space_advance),
        max_width as int,
        ends,
    );
}

/// The lines from a word on are the line that begins with it and the lines from the
/// word after that line on.
proof fn lemma_line_texts_unfold(
    words: Seq<Seq<char>>,
    widths: Seq<int>,
    gap: int,
    max_width: int,
    start: int,
)
    requires
        0 <= start < widths.len(),
    ensures
        start < line_end(widths, gap, max_width, start) <= widths.len(),
        line_texts(words, widths, gap, max_width, start) == seq![
            line_text(words, (start, line_end(widths, gap, max_width, start))),
        ] + line_texts(words, widths, gap, max_width, line_end(widths, gap, max_width, start)),
        line_end(widths, gap, max_width, start) == widths.len() ==> line_texts(
            words,
            widths,
            gap,
            max_width,
            line_end(widths, gap, max_width, start),
        ).len() == 0,
        line_end(widths, gap, max_width, start) < widths.len() ==> line_texts(
            words,
            widths,
            gap,
            max_width,
            line_end(widths, gap, max_width, start),
        ).len() > 0,
{
    let end = line_end(widths, gap, max_width, start);
    lemma_line_stop_bounds(widths, gap, max_width, widths[start], start + 1);
    let text_of = |span: (int, int)| line_text(words, span);
    let rest = line_spans(widths, gap, max_width, end);
    assert(line_spans(widths, gap, max_width, start) == seq![(start, end)] + rest);
    assert((seq![(start, end)] + rest).map_values(text_of) =~= seq![line_text(words, (start, end))]
        + rest.map_values(text_of));
    if end < widths.len() {
        lemma_line_stop_bounds(widths, gap, max_width, widths[end], end + 1);
        assert(rest.len() > 0);
    }
}

/// The lines from word `start` on, joined by single spaces, are the words from `start`
/// on joined by single spaces.
proof fn lemma_join_lines(
    words: Seq<Seq<char>>,
    widths: Seq<int>,
    gap: int,
    max_width: int,
    start: int,
)
    requires
        0 <= start < words.len(),
        widths.len() == words.len(),
    ensures
        join(line_texts(words, widths, gap, max_width, start), space()) == join(
            words.subrange(start, words.len() as int),
            space(),
        ),
    decreases words.len() - start,
{
    let end = line_end(widths, gap, max_width, start);
    let first = line_text(words, (start, end));
    let rest = line_texts(words, widths, gap, max_width, end);
    lemma_line_texts_unfold(words, widths, gap, max_width, start);
    if end == words.len() {
        assert(seq![first] + rest =~= seq![first]);
        assert(join(seq![first], space()) == first);
    } else {
        lemma_join_lines(words, widths, gap, max_width, end);
        lemma_join_concat(seq![first], rest, space());
        assert(join(seq![first], space()) == first);
        let head = words.subrange(start, end);
        let tail = words.subrange(end, words.len() as int);
        lemma_join_concat(head, tail, space());
        assert(head + tail =~= words.subrange(start, words.len() as int));
    }
}

/// Every line of a wrapped text keeps to the budget: the widths of its characters and
/// one gap between each two words are together no more than `max_width`, unless the
/// line is a single word. It is also full: the word that begins the next line would not
/// fit behind it.
pub proof fn lemma_wrap_budget(
    text: Seq<char>,
    advances: Seq<usize>,
    space_advance: usize,
    max_width: usize,
    k: int,
)
    requires
        0 <= k < wrapped(text, advances, space_advance, max_width).len(),
    ensures
        ({
            let widths = word_widths(text, advances);
            let gap = space_width(space_advance);
            let span = line_spans(widths, gap, max_width as int, 0)[k];
            &&& wrapped(text, advances, space_advance, max_width)[k] == line_text(
                split_words(text),
                span,
            )
            &&& 0 <= span.0 < span.1 <= split_words(text).len()
            &&& within_budget(widths, gap, max_width as int, span)
            &&& is_full(widths, gap, max_width as int, span)
        }),
{
    let widths = word_widths(text, advances);
    lemma_word_widths_len(text, advances, 0);
    lemma_line_spans(widths, space_width(space_advance), max_width as int, 0);
}

/// Wrapping keeps the words: the lines of a wrapped text, joined by single spaces and
/// split at whitespace, give the words of the text in their order.
pub proof fn lemma_wrap_keeps_words(
    text: Seq<char>,
    advances: Seq<usize>,
    space_advance: usize,
    max_width: usize,
)
    ensures
        split_words(join(wrapped(text, advances, space_advance, max_width), space()))
            == split_words(text),
{
    let words = split_words(text);
    let widths = word_widths(text, advances);
    lemma_word_widths_len(text, advances, 0);
    lemma_words_are_words(text, 0);
    if words.len() == 0 {
        assert(line_spans(widths, space_width(space_advance), max_width as int, 0)
            =~= Seq::<(int, int)>::empty());
        assert(wrapped(text, advances, space_advance, max_width) =~= Seq::<Seq<char>>::empty());
        assert(join(Seq::<Seq<char>>::empty(), space()) =~= Seq::<char>::empty());
    } else {
        lemma_join_lines(words, widths, space_width(space_advance), max_width as int, 0);
        assert(words.subrange(0, words.len() as int) =~= words);
        lemma_split_join(words);
    }
}

} // verus!
