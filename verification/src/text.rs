use vstd::prelude::*;

verus! {

broadcast use vstd::string::group_string_axioms;

/// `String::push` appends one character to the end of the string.
pub assume_specification[ String::push ](s: &mut String, ch: char)
    ensures
        final(s)@ == old(s)@.push(ch),
;

/// The characters of a string slice, in order.
pub fn chars_of(s: &str) -> (v: Vec<char>)
    ensures
        v@ == s@,
{
    let mut v: Vec<char> = Vec::new();
    for c in it: s.chars()
        invariant
            it.seq() == s@,
            v@ == s@.take(it.index() as int),
    {
        v.push(c);
    }
    v
}

/// Appends characters to a string.
pub fn push_chars(out: &mut String, chars: &Vec<char>)
    ensures
        final(out)@ == old(out)@ + chars@,
{
    let mut i: usize = 0;
    while i < chars.len()
        invariant
            i <= chars.len(),
            out@ == old(out)@ + chars@.take(i as int),
        decreases chars.len() - i,
    {
        out.push(chars[i]);
        i += 1;
    }
}

/// A string made of the given characters.
pub fn string_of(chars: &Vec<char>) -> (s: String)
    ensures
        s@ == chars@,
{
    let mut s = String::new();
    push_chars(&mut s, chars);
    s
}

/// The characters of `chars` from index `from` up to, not including, index `to`.
pub fn slice_of(chars: &Vec<char>, from: usize, to: usize) -> (part: Vec<char>)
    requires
        from <= to <= chars.len(),
    ensures
        part@ == chars@.subrange(from as int, to as int),
{
    let mut part: Vec<char> = Vec::new();
    let mut i: usize = from;
    while i < to
        invariant
            from <= i <= to <= chars.len(),
            part@ == chars@.subrange(from as int, i as int),
        decreases to - i,
    {
        part.push(chars[i]);
        i += 1;
    }
    part
}

/// The view of each vector of characters.
pub open spec fn views(v: Seq<Vec<char>>) -> Seq<Seq<char>> {
    v.map_values(|w: Vec<char>| w@)
}

/// The view of each string.
pub open spec fn texts(v: Seq<String>) -> Seq<Seq<char>> {
    v.map_values(|w: String| w@)
}

/// Unicode's White_Space property: the characters at which words are split.
pub open spec fn is_whitespace(c: char) -> bool {
    let n = c as u32;
    ||| 0x09 <= n <= 0x0D
    ||| n == 0x20
    ||| n == 0x85
    ||| n == 0xA0
    ||| n == 0x1680
    ||| 0x2000 <= n <= 0x200A
    ||| n == 0x2028
    ||| n == 0x2029
    ||| n == 0x202F
    ||| n == 0x205F
    ||| n == 0x3000
}

/// Tells whether a character has the White_Space property.
pub fn char_is_whitespace(c: char) -> (b: bool)
    ensures
        b == is_whitespace(c),
{
    let n: u32 = c as u32;
    (0x09 <= n && n <= 0x0D) || n == 0x20 || n == 0x85 || n == 0xA0 || n == 0x1680 || (0x2000 <= n
        && n <= 0x200A) || n == 0x2028 || n == 0x2029 || n == 0x202F || n == 0x205F || n == 0x3000
}

/// Whether a text holds nothing but whitespace.
pub open spec fn is_blank(s: Seq<char>) -> bool {
    forall|i: int| 0 <= i < s.len() ==> is_whitespace(#[trigger] s[i])
}

/// Tells whether a text holds nothing but whitespace.
pub fn blank(s: &Vec<char>) -> (b: bool)
    ensures
        b == is_blank(s@),
{
    let mut i: usize = 0;
    while i < s.len()
        invariant
            i <= s.len(),
            forall|j: int| 0 <= j < i ==> is_whitespace(#[trigger] s@[j]),
        decreases s.len() - i,
    {
        if !char_is_whitespace(s[i]) {
            return false;
        }
        i += 1;
    }
    true
}

/// Tells whether two texts hold the same characters.
pub fn same_chars(a: &Vec<char>, b: &Vec<char>) -> (same: bool)
    ensures
        same == (a@ == b@),
{
    if a.len() != b.len() {
        return false;
    }
    let mut i: usize = 0;
    while i < a.len()
        invariant
            i <= a.len(),
            a.len() == b.len(),
            a@.take(i as int) == b@.take(i as int),
        decreases a.len() - i,
    {
        if a[i] != b[i] {
            return false;
        }
        assert(a@.take(i + 1) =~= a@.take(i as int).push(a@[i as int]));
        assert(b@.take(i + 1) =~= b@.take(i as int).push(b@[i as int]));
        i += 1;
    }
    assert(a@.take(a.len() as int) =~= a@);
    assert(b@.take(b.len() as int) =~= b@);
    true
}

/// Whether `s` begins with `prefix`.
pub open spec fn has_prefix(s: Seq<char>, prefix: Seq<char>) -> bool {
    prefix.len() <= s.len() && s.subrange(0, prefix.len() as int) == prefix
}

/// Tells whether `s` begins with `prefix`.
pub fn starts_with(s: &Vec<char>, prefix: &Vec<char>) -> (b: bool)
    ensures
        b == has_prefix(s@, prefix@),
{
    if prefix.len() > s.len() {
        return false;
    }
    let mut i: usize = 0;
    while i < prefix.len()
        invariant
            i <= prefix.len() <= s.len(),
            s@.subrange(0, i as int) == prefix@.subrange(0, i as int),
        decreases prefix.len() - i,
    {
        if s[i] != prefix[i] {
            assert(s@.subrange(0, prefix.len() as int)[i as int] != prefix@[i as int]);
            return false;
        }
        assert(s@.subrange(0, i + 1) == s@.subrange(0, i as int).push(s@[i as int]));
        assert(prefix@.subrange(0, i + 1) == prefix@.subrange(0, i as int).push(prefix@[i as int]));
        i += 1;
    }
    assert(prefix@.subrange(0, prefix.len() as int) == prefix@);
    true
}

/// The first index from `i` on that holds whitespace, or the length where none does.
pub open spec fn word_end(s: Seq<char>, i: int) -> int
    decreases s.len() - i,
{
    if 0 <= i < s.len() && !is_whitespace(s[i]) {
        word_end(s, i + 1)
    } else {
        i
    }
}

/// The words of `s` that begin at index `i` or later.
pub open spec fn words_from(s: Seq<char>, i: int) -> Seq<Seq<char>>
    decreases s.len() - i,
    via words_from_decreases
{
    if !(0 <= i < s.len()) {
        Seq::empty()
    } else if is_whitespace(s[i]) {
        words_from(s, i + 1)
    } else {
        seq![s.subrange(i, word_end(s, i))] + words_from(s, word_end(s, i))
    }
}

#[via_fn]
proof fn words_from_decreases(s: Seq<char>, i: int) {
    if 0 <= i < s.len() && !is_whitespace(s[i]) {
        lemma_word_end_bounds(s, i);
    }
}

/// A word ends at or after its start, within the text, and after its start where the
/// start holds no whitespace.
pub proof fn lemma_word_end_bounds(s: Seq<char>, i: int)
    requires
        0 <= i <= s.len(),
    ensures
        i <= word_end(s, i) <= s.len(),
        i < s.len() && !is_whitespace(s[i]) ==> i < word_end(s, i),
        word_end(s, i) < s.len() ==> is_whitespace(s[word_end(s, i)]),
        forall|j: int| i <= j < word_end(s, i) ==> !is_whitespace(#[trigger] s[j]),
    decreases s.len() - i,
{
    if i < s.len() && !is_whitespace(s[i]) {
        lemma_word_end_bounds(s, i + 1);
    }
}

/// The maximal runs of characters without whitespace, in order.
pub open spec fn split_words(s: Seq<char>) -> Seq<Seq<char>> {
    words_from(s, 0)
}

/// Splits a text at whitespace; no word is empty.
pub fn split_whitespace(s: &Vec<char>) -> (words: Vec<Vec<char>>)
    ensures
        views(words@) == split_words(s@),
{
    let mut words: Vec<Vec<char>> = Vec::new();
    let mut i: usize = 0;
    assert(views(words@) =~= Seq::<Seq<char>>::empty());
    while i < s.len()
        invariant
            i <= s.len(),
            split_words(s@) == views(words@) + words_from(s@, i as int),
        decreases s.len() - i,
    {
        if char_is_whitespace(s[i]) {
            i += 1;
        } else {
            let start = i;
            while i < s.len() && !char_is_whitespace(s[i])
                invariant
                    start <= i <= s.len(),
                    word_end(s@, start as int) == word_end(s@, i as int),
                decreases s.len() - i,
            {
                i += 1;
            }
            let word = slice_of(s, start, i);
            let ghost before = views(words@);
            words.push(word);
            assert(views(words@) =~= before.push(s@.subrange(start as int, i as int)));
            assert(before + (seq![s@.subrange(start as int, i as int)] + words_from(s@, i as int))
                =~= before.push(s@.subrange(start as int, i as int)) + words_from(s@, i as int));
        }
    }
    words
}

/// The first index from `i` on that holds a line feed, or the length where none does.
pub open spec fn line_end(s: Seq<char>, i: int) -> int
    decreases s.len() - i,
{
    if 0 <= i < s.len() && s[i] != '\n' {
        line_end(s, i + 1)
    } else {
        i
    }
}

/// A line ends at or after its start and within the text.
pub proof fn lemma_line_end_bounds(s: Seq<char>, i: int)
    requires
        0 <= i <= s.len(),
    ensures
        i <= line_end(s, i) <= s.len(),
        line_end(s, i) < s.len() ==> s[line_end(s, i)] == '\n',
        forall|j: int| i <= j < line_end(s, i) ==> #[trigger] s[j] != '\n',
    decreases s.len() - i,
{
    if i < s.len() && s[i] != '\n' {
        lemma_line_end_bounds(s, i + 1);
    }
}

/// A line without the carriage return that stood before its line feed.
pub open spec fn trim_cr(line: Seq<char>) -> Seq<char> {
    if line.len() > 0 && line.last() == '\r' {
        line.drop_last()
    } else {
        line
    }
}

/// The lines of `s` that begin at index `i` or later.
pub open spec fn lines_from(s: Seq<char>, i: int) -> Seq<Seq<char>>
    decreases s.len() - i,
    via lines_from_decreases
{
    if !(0 <= i < s.len()) {
        Seq::empty()
    } else if line_end(s, i) < s.len() {
        seq![trim_cr(s.subrange(i, line_end(s, i)))] + lines_from(s, line_end(s, i) + 1)
    } else {
        seq![s.subrange(i, s.len() as int)]
    }
}

#[via_fn]
proof fn lines_from_decreases(s: Seq<char>, i: int) {
    if 0 <= i < s.len() {
        lemma_line_end_bounds(s, i);
    }
}

/// The lines of a text. A line ends at a line feed, or at a carriage return followed by
/// a line feed; neither belongs to the line. What follows the last line feed is a line
/// only where it is not empty.
pub open spec fn split_lines(s: Seq<char>) -> Seq<Seq<char>> {
    lines_from(s, 0)
}

/// Splits a text into its lines.
pub fn lines(s: &Vec<char>) -> (result: Vec<Vec<char>>)
    ensures
        views(result@) == split_lines(s@),
{
    let mut result: Vec<Vec<char>> = Vec::new();
    let mut i: usize = 0;
    assert(views(result@) =~= Seq::<Seq<char>>::empty());
    while i < s.len()
        invariant
            i <= s.len(),
            split_lines(s@) == views(result@) + lines_from(s@, i as int),
        decreases s.len() - i,
    {
        let start = i;
        while i < s.len() && s[i] != '\n'
            invariant
                start <= i <= s.len(),
                line_end(s@, start as int) == line_end(s@, i as int),
            decreases s.len() - i,
        {
            i += 1;
        }
        let ghost before = views(result@);
        if i < s.len() {
            let end = if i > start && s[i - 1] == '\r' {
                i - 1
            } else {
                i
            };
            let line = slice_of(s, start, end);
            assert(line@ =~= trim_cr(s@.subrange(start as int, i as int)));
            result.push(line);
            assert(views(result@) =~= before.push(line@));
            assert(before + (seq![line@] + lines_from(s@, i + 1)) =~= before.push(line@)
                + lines_from(s@, i + 1));
            i += 1;
        } else {
            let line = slice_of(s, start, i);
            result.push(line);
            assert(views(result@) =~= before.push(line@));
            assert(before + seq![line@] =~= before.push(line@) + lines_from(s@, i as int));
        }
    }
    result
}

/// The parts in order, with `sep` between each two neighbours.
pub open spec fn join(parts: Seq<Seq<char>>, sep: Seq<char>) -> Seq<char>
    decreases parts.len(),
{
    if parts.len() == 0 {
        Seq::empty()
    } else if parts.len() == 1 {
        parts[0]
    } else {
        join(parts.drop_last(), sep) + sep + parts.last()
    }
}

/// Joining two runs of parts one after the other joins what each gives.
pub proof fn lemma_join_concat(xs: Seq<Seq<char>>, ys: Seq<Seq<char>>, sep: Seq<char>)
    requires
        xs.len() > 0,
        ys.len() > 0,
    ensures
        join(xs + ys, sep) == join(xs, sep) + sep + join(ys, sep),
    decreases ys.len(),
{
    assert((xs + ys).drop_last() =~= xs + ys.drop_last());
    assert((xs + ys).last() == ys.last());
    if ys.len() == 1 {
        assert(xs + ys.drop_last() =~= xs);
    } else {
        lemma_join_concat(xs, ys.drop_last(), sep);
        assert(join(xs + ys, sep) =~= join(xs, sep) + sep + join(ys, sep));
    }
}

/// Whether a text is a word: not empty, and without whitespace.
pub open spec fn is_word(w: Seq<char>) -> bool {
    w.len() > 0 && forall|j: int| 0 <= j < w.len() ==> !is_whitespace(#[trigger] w[j])
}

/// What a text is split into are words.
pub proof fn lemma_words_are_words(s: Seq<char>, i: int)
    ensures
        forall|k: int| 0 <= k < words_from(s, i).len() ==> is_word(#[trigger] words_from(s, i)[k]),
    decreases s.len() - i,
{
    if 0 <= i < s.len() {
        if is_whitespace(s[i]) {
            lemma_words_are_words(s, i + 1);
            assert(words_from(s, i) == words_from(s, i + 1));
        } else {
            lemma_word_end_bounds(s, i);
            lemma_words_are_words(s, word_end(s, i));
            let first = s.subrange(i, word_end(s, i));
            assert(words_from(s, i) == seq![first] + words_from(s, word_end(s, i)));
            assert forall|j: int| 0 <= j < first.len() implies !is_whitespace(
                #[trigger] first[j],
            ) by {
                assert(first[j] == s[i + j]);
            }
            let rest = words_from(s, word_end(s, i));
            assert forall|k: int| 0 <= k < words_from(s, i).len() implies is_word(
                #[trigger] words_from(s, i)[k],
            ) by {
                if k > 0 {
                    assert(words_from(s, i)[k] == rest[k - 1]);
                    assert(is_word(rest[k - 1]));
                } else {
                    assert(words_from(s, i)[k] == first);
                    assert(is_word(first));
                }
            }
        }
    }
}

/// A word that begins at `i` ends at `e` where nothing from `i` up to `e` is whitespace
/// and `e` holds whitespace or is the end.
pub proof fn lemma_word_end_is(s: Seq<char>, i: int, e: int)
    requires
        0 <= i <= e <= s.len(),
        forall|j: int| i <= j < e ==> !is_whitespace(#[trigger] s[j]),
        e < s.len() ==> is_whitespace(s[e]),
    ensures
        word_end(s, i) == e,
    decreases e - i,
{
    if i < e {
        lemma_word_end_is(s, i + 1, e);
    }
}

/// What stands before an index does not change the words from that index on.
pub proof fn lemma_words_from_suffix(p: Seq<char>, t: Seq<char>, i: int)
    requires
        0 <= i <= t.len(),
    ensures
        words_from(p + t, p.len() + i) == words_from(t, i),
    decreases t.len() - i,
{
    let s = p + t;
    if i < t.len() {
        assert(s[p.len() + i] == t[i]);
        if is_whitespace(t[i]) {
            lemma_words_from_suffix(p, t, i + 1);
        } else {
            lemma_word_end_bounds(t, i);
            let e = word_end(t, i);
            assert forall|j: int| p.len() + i <= j < p.len() + e implies !is_whitespace(
                #[trigger] s[j],
            ) by {
                assert(s[j] == t[j - p.len()]);
            }
            if e < t.len() {
                assert(s[p.len() + e] == t[e]);
            }
            lemma_word_end_is(s, p.len() + i, p.len() + e);
            assert(s.subrange(p.len() + i, p.len() + e) =~= t.subrange(i, e));
            lemma_words_from_suffix(p, t, e);
        }
    }
}

/// Words joined by single spaces split into the same words again.
pub proof fn lemma_split_join(words: Seq<Seq<char>>)
    requires
        forall|k: int| 0 <= k < words.len() ==> is_word(#[trigger] words[k]),
    ensures
        split_words(join(words, seq![' '])) == words,
    decreases words.len(),
{
    let sep = seq![' '];
    if words.len() == 0 {
    } else {
        let w = words[0];
        let rest = words.subrange(1, words.len() as int);
        assert(is_word(w));
        assert(words =~= seq![w] + rest);
        if rest.len() == 0 {
            assert(words =~= seq![w]);
            assert(join(words, sep) == w);
            lemma_word_end_is(w, 0, w.len() as int);
            assert(w.subrange(0, w.len() as int) =~= w);
            assert(words_from(w, w.len() as int) =~= Seq::<Seq<char>>::empty());
            assert(split_words(w) =~= seq![w]);
        } else {
            assert forall|k: int| 0 <= k < rest.len() implies is_word(#[trigger] rest[k]) by {
                assert(rest[k] == words[k + 1]);
            }
            lemma_split_join(rest);
            lemma_join_concat(seq![w], rest, sep);
            let tail = join(rest, sep);
            let s = join(words, sep);
            assert(s =~= (w + sep) + tail);
            assert forall|j: int| 0 <= j < w.len() implies !is_whitespace(#[trigger] s[j]) by {
                assert(s[j] == w[j]);
            }
            assert(s[w.len() as int] == ' ');
            lemma_word_end_is(s, 0, w.len() as int);
            assert(s.subrange(0, w.len() as int) =~= w);
            lemma_words_from_suffix(w + sep, tail, 0);
            assert(words_from(s, w.len() as int) == words_from(s, w.len() as int + 1));
            assert(split_words(s) =~= seq![w] + rest);
        }
    }
}

/// `count` copies of `c`.
pub open spec fn repeat(c: char, count: nat) -> Seq<char> {
    Seq::new(count, |i: int| c)
}

/// Appends `count` copies of `c` to a string.
pub fn push_repeat(out: &mut String, c: char, count: usize)
    ensures
        final(out)@ == old(out)@ + repeat(c, count as nat),
{
    let mut i: usize = 0;
    while i < count
        invariant
            i <= count,
            out@ == old(out)@ + repeat(c, i as nat),
        decreases count - i,
    {
        out.push(c);
        assert(repeat(c, i as nat).push(c) =~= repeat(c, (i + 1) as nat));
        i += 1;
    }
}

/// The decimal digit for a value below ten: the digits follow each other from code
/// point 48, the digit zero.
pub open spec fn digit(d: nat) -> char {
    (48 + d) as char
}

/// A number in decimal notation, without leading zeros.
pub open spec fn decimal(n: nat) -> Seq<char>
    decreases n,
{
    if n < 10 {
        seq![digit(n)]
    } else {
        decimal(n / 10).push(digit(n % 10))
    }
}

/// The digit character for a value below ten.
pub fn digit_char(d: usize) -> (c: char)
    requires
        d < 10,
    ensures
        c == digit(d as nat),
{
    (48u8 + d as u8) as char
}

/// Appends a number in decimal notation to a string.
pub fn push_decimal(out: &mut String, n: usize)
    ensures
        final(out)@ == old(out)@ + decimal(n as nat),
    decreases n,
{
    if n >= 10 {
        push_decimal(out, n / 10);
    }
    out.push(digit_char(n % 10));
    assert(old(out)@ + decimal(n as nat) =~= if n >= 10 {
        (old(out)@ + decimal((n / 10) as nat)).push(digit((n % 10) as nat))
    } else {
        old(out)@.push(digit(n as nat))
    });
}

} // verus!
