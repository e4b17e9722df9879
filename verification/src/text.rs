//! Small tools on text: characters of a string, decimal numbers, words.

use vstd::prelude::*;
use vstd::string::*;

verus! {

/// The characters of a string, in order.
pub fn chars_of(s: &str) -> (v: Vec<char>)
    ensures
        v@ == s@,
{
    let n = s.unicode_len();
    let mut v: Vec<char> = Vec::new();
    let mut i: usize = 0;
    while i < n
        invariant
            i <= n,
            n == s@.len(),
            v@ == s@.take(i as int),
        decreases n - i,
    {
        v.push(s.get_char(i));
        i += 1;
        assert(s@.take(i as int) == s@.take(i - 1).push(s@[i - 1]));
    }
    assert(s@.take(n as int) == s@);
    v
}

/// One of the ten digits `0` to `9`.
pub open spec fn is_digit(c: char) -> bool {
    c == '0' || c == '1' || c == '2' || c == '3' || c == '4' || c == '5' || c == '6' || c == '7'
        || c == '8' || c == '9'
}

/// The value of a digit; 0 for any other character.
pub open spec fn digit_value(c: char) -> nat {
    if c == '1' {
        1
    } else if c == '2' {
        2
    } else if c == '3' {
        3
    } else if c == '4' {
        4
    } else if c == '5' {
        5
    } else if c == '6' {
        6
    } else if c == '7' {
        7
    } else if c == '8' {
        8
    } else if c == '9' {
        9
    } else {
        0
    }
}

/// The value of a digit, if `c` is one.
pub fn digit_of(c: char) -> (r: Option<u8>)
    ensures
        r is Some <==> is_digit(c),
        r matches Some(d) ==> d == digit_value(c) && d <= 9,
{
    match c {
        '0' => Some(0),
        '1' => Some(1),
        '2' => Some(2),
        '3' => Some(3),
        '4' => Some(4),
        '5' => Some(5),
        '6' => Some(6),
        '7' => Some(7),
        '8' => Some(8),
        '9' => Some(9),
        _ => None,
    }
}

pub open spec fn all_digits(s: Seq<char>) -> bool {
    forall|i: int| 0 <= i < s.len() ==> is_digit(#[trigger] s[i])
}

/// The number that a run of digits writes in base ten.
pub open spec fn digits_value(s: Seq<char>) -> nat
    decreases s.len(),
{
    if s.len() == 0 {
        0
    } else {
        digits_value(s.drop_last()) * 10 + digit_value(s.last())
    }
}

/// The number that `s` writes, as the integer types read it: an optional `+`,
/// then one digit or more and nothing else, of a value up to `max`.
pub open spec fn unsigned_decimal(s: Seq<char>, max: nat) -> Option<nat> {
    let body = if s.len() > 0 && s[0] == '+' {
        s.skip(1)
    } else {
        s
    };
    if body.len() > 0 && all_digits(body) && digits_value(body) <= max {
        Some(digits_value(body))
    } else {
        None
    }
}

/// A longer run of digits writes no smaller a number than its beginning.
pub proof fn lemma_digits_value_prefix(s: Seq<char>, n: int)
    requires
        0 <= n <= s.len(),
    ensures
        digits_value(s.take(n)) <= digits_value(s),
    decreases s.len(),
{
    if n == s.len() {
        assert(s.take(n) == s);
    } else {
        lemma_digits_value_prefix(s.drop_last(), n);
        assert(s.drop_last().take(n) == s.take(n));
    }
}

/// Reads the part of `s` from `from` to `to` as an unsigned decimal number of
/// at most `max`.
pub fn parse_unsigned(s: &Vec<char>, from: usize, to: usize, max: u64) -> (r: Option<u64>)
    requires
        from <= to <= s.len(),
    ensures
        r is Some <==> unsigned_decimal(s@.subrange(from as int, to as int), max as nat) is Some,
        r matches Some(v) ==> Some(v as nat) == unsigned_decimal(
            s@.subrange(from as int, to as int),
            max as nat,
        ),
{
    let ghost whole = s@.subrange(from as int, to as int);
    let start: usize = if from < to && s[from] == '+' {
        from + 1
    } else {
        from
    };
    let ghost body = s@.subrange(start as int, to as int);
    assert(body == if whole.len() > 0 && whole[0] == '+' {
        whole.skip(1)
    } else {
        whole
    });
    let ghost expected = unsigned_decimal(whole, max as nat);
    if start == to {
        return None;
    }
    let mut acc: u64 = 0;
    let mut i: usize = start;
    while i < to
        invariant
            start <= i <= to <= s.len(),
            body == s@.subrange(start as int, to as int),
            expected == unsigned_decimal(s@.subrange(from as int, to as int), max as nat),
            expected == if body.len() > 0 && all_digits(body) && digits_value(body) <= max {
                Some(digits_value(body))
            } else {
                None
            },
            all_digits(body.take(i - start)),
            acc == digits_value(body.take(i - start)),
            acc <= max,
        decreases to - i,
    {
        let ghost before = body.take(i - start);
        let ghost after = body.take(i - start + 1);
        assert(after.drop_last() == before);
        assert(after.last() == s@[i as int]);
        match digit_of(s[i]) {
            None => {
                assert(!is_digit(body[i - start]));
                return None;
            },
            Some(d) => {
                proof {
                    lemma_digits_value_prefix(body, i - start + 1);
                }
                if d as u64 > max || acc > (max - d as u64) / 10 {
                    return None;
                }
                acc = acc * 10 + d as u64;
                i += 1;
            },
        }
    }
    assert(body.take(to - start) == body);
    Some(acc)
}

/// The characters that part words: space, tab, line feed, vertical tab, form
/// feed and carriage return.
pub open spec fn is_space(c: char) -> bool {
    c == ' ' || c == '\t' || c == '\n' || c == '\u{b}' || c == '\u{c}' || c == '\r'
}

pub fn is_space_char(c: char) -> (b: bool)
    ensures
        b == is_space(c),
{
    c == ' ' || c == '\t' || c == '\n' || c == '\u{b}' || c == '\u{c}' || c == '\r'
}

/// The number of characters before the first space of `s`.
pub open spec fn word_len(s: Seq<char>) -> int
    decreases s.len(),
{
    if s.len() == 0 || is_space(s[0]) {
        0
    } else {
        1 + word_len(s.skip(1))
    }
}

/// The words of `s`: its longest runs of characters that are no spaces, in
/// order.
pub open spec fn split_words(s: Seq<char>) -> Seq<Seq<char>>
    decreases s.len(),
    via split_words_decreases
{
    if s.len() == 0 {
        Seq::<Seq<char>>::empty()
    } else if is_space(s[0]) {
        split_words(s.skip(1))
    } else {
        seq![s.take(word_len(s))] + split_words(s.skip(word_len(s)))
    }
}

#[via_fn]
proof fn split_words_decreases(s: Seq<char>) {
    if s.len() > 0 && !is_space(s[0]) {
        lemma_word_len_bounds(s);
    }
}

pub proof fn lemma_word_len_bounds(s: Seq<char>)
    ensures
        0 <= word_len(s) <= s.len(),
        s.len() > 0 && !is_space(s[0]) ==> word_len(s) >= 1,
        forall|i: int| 0 <= i < word_len(s) ==> !is_space(#[trigger] s[i]),
        word_len(s) < s.len() ==> is_space(s[word_len(s)]),
    decreases s.len(),
{
    if s.len() == 0 || is_space(s[0]) {
    } else {
        lemma_word_len_bounds(s.skip(1));
        assert forall|i: int| 0 <= i < word_len(s) implies !is_space(#[trigger] s[i]) by {
            if i > 0 {
                assert(s[i] == s.skip(1)[i - 1]);
            }
        }
        if word_len(s) < s.len() {
            assert(s[word_len(s)] == s.skip(1)[word_len(s) - 1]);
        }
    }
}

/// A text that begins with `n` characters that are no spaces, and ends
/// there or goes on with a space, begins with a word of `n` characters.
pub proof fn lemma_word_len_is(s: Seq<char>, n: int)
    requires
        0 <= n <= s.len(),
        forall|i: int| 0 <= i < n ==> !is_space(#[trigger] s[i]),
        n < s.len() ==> is_space(s[n]),
    ensures
        word_len(s) == n,
    decreases n,
{
    if n > 0 {
        assert forall|i: int| 0 <= i < n - 1 implies !is_space(#[trigger] s.skip(1)[i]) by {
            assert(s.skip(1)[i] == s[i + 1]);
        }
        lemma_word_len_is(s.skip(1), n - 1);
    }
}

/// The places of the words of `s`: for each word, in order, where it starts
/// and where it ends.
pub fn word_ranges(s: &Vec<char>) -> (r: Vec<(usize, usize)>)
    ensures
        r@.len() == split_words(s@).len(),
        forall|k: int|
            0 <= k < r@.len() ==> (#[trigger] r@[k]).0 < r@[k].1 <= s@.len() && s@.subrange(
                r@[k].0 as int,
                r@[k].1 as int,
            ) == split_words(s@)[k],
{
    let n = s.len();
    let mut r: Vec<(usize, usize)> = Vec::new();
    let mut i: usize = 0;
    assert(s@.skip(0) == s@);
    while i < n
        invariant
            i <= n,
            n == s@.len(),
            split_words(s@).len() == r@.len() + split_words(s@.skip(i as int)).len(),
            forall|k: int|
                0 <= k < r@.len() ==> (#[trigger] r@[k]).0 < r@[k].1 <= s@.len() && s@.subrange(
                    r@[k].0 as int,
                    r@[k].1 as int,
                ) == split_words(s@)[k],
            forall|k: int|
                0 <= k < split_words(s@.skip(i as int)).len() ==> #[trigger] split_words(
                    s@.skip(i as int),
                )[k] == split_words(s@)[r@.len() + k],
        decreases n - i,
    {
        let ghost rest = s@.skip(i as int);
        if is_space_char(s[i]) {
            assert(rest.skip(1) == s@.skip(i + 1));
            i += 1;
        } else {
            let start = i;
            let mut j: usize = i;
            while j < n && !is_space_char(s[j])
                invariant
                    start <= j <= n,
                    n == s@.len(),
                    rest == s@.skip(start as int),
                    word_len(rest) == (j - start) + word_len(s@.skip(j as int)),
                decreases n - j,
            {
                assert(s@.skip(j as int).skip(1) == s@.skip(j + 1));
                j += 1;
            }
            proof {
                lemma_word_len_bounds(rest);
                assert(word_len(s@.skip(j as int)) == 0);
                assert(rest.take(j - start) == s@.subrange(start as int, j as int));
                assert(rest.skip(j - start) == s@.skip(j as int));
                let tail = split_words(s@.skip(j as int));
                assert(split_words(rest) == seq![rest.take(j - start)] + tail);
                assert forall|k: int| 0 <= k < tail.len() implies #[trigger] tail[k]
                    == split_words(s@)[r@.len() + 1 + k] by {
                    assert(split_words(rest)[k + 1] == tail[k]);
                }
                assert(split_words(rest)[0] == s@.subrange(start as int, j as int));
            }
            r.push((start, j));
            i = j;
        }
    }
    r
}

/// Whether `c` is the letter `lower` or its capital `upper`.
pub open spec fn is_letter(c: char, lower: char, upper: char) -> bool {
    c == lower || c == upper
}

/// Whether `word` stands in `s` at place `at`, in small or capital letters:
/// `lower` and `upper` spell the word both ways.
pub open spec fn word_at(s: Seq<char>, at: int, lower: Seq<char>, upper: Seq<char>) -> bool {
    &&& 0 <= at
    &&& at + lower.len() <= s.len()
    &&& forall|k: int|
        0 <= k < lower.len() ==> is_letter(#[trigger] s[at + k], lower[k], upper[k])
}

/// Whether the word stands anywhere in `s`.
pub open spec fn has_word(s: Seq<char>, lower: Seq<char>, upper: Seq<char>) -> bool {
    exists|at: int| word_at(s, at, lower, upper)
}

/// Looks for a word in the part of `s` from `from` to `to`, taking small and
/// capital letters for the same.
pub fn contains_word(
    s: &Vec<char>,
    from: usize,
    to: usize,
    lower: &Vec<char>,
    upper: &Vec<char>,
) -> (b: bool)
    requires
        from <= to <= s.len(),
        lower.len() == upper.len(),
    ensures
        b == has_word(s@.subrange(from as int, to as int), lower@, upper@),
{
    let ghost part = s@.subrange(from as int, to as int);
    let m = lower.len();
    if to - from < m {
        assert forall|at: int| !word_at(part, at, lower@, upper@) by {}
        return false;
    }
    let last = to - m;
    let mut i: usize = from;
    while i <= last
        invariant
            from <= i <= last + 1,
            last == to - m,
            m == lower.len(),
            m == upper.len(),
            to <= s.len(),
            part == s@.subrange(from as int, to as int),
            forall|at: int| 0 <= at < i - from ==> !word_at(part, at, lower@, upper@),
        decreases last + 1 - i,
    {
        let mut k: usize = 0;
        let mut same = true;
        while k < m && same
            invariant
                k <= m,
                m == lower.len(),
                m == upper.len(),
                i + m <= to <= s.len(),
                from <= i,
                part == s@.subrange(from as int, to as int),
                same ==> forall|q: int|
                    0 <= q < k ==> is_letter(#[trigger] part[i - from + q], lower@[q], upper@[q]),
                !same ==> !word_at(part, i - from, lower@, upper@),
            decreases m - k, if same { 1int } else { 0int },
        {
            let c = s[i + k];
            assert(c == part[i - from + k]);
            if c == lower[k] || c == upper[k] {
                k += 1;
            } else {
                same = false;
            }
        }
        if same {
            assert(word_at(part, i - from, lower@, upper@));
            return true;
        }
        i += 1;
    }
    assert forall|at: int| !word_at(part, at, lower@, upper@) by {}
    false
}

/// The number of characters before the first line feed of `s`.
pub open spec fn line_len(s: Seq<char>) -> int
    decreases s.len(),
{
    if s.len() == 0 || s[0] == '\n' {
        0
    } else {
        1 + line_len(s.skip(1))
    }
}

/// A line without the carriage return at its end, if it has one there.
pub open spec fn strip_return(line: Seq<char>) -> Seq<char> {
    if line.len() > 0 && line.last() == '\r' {
        line.drop_last()
    } else {
        line
    }
}

/// The lines of `s`. A line ends with a line feed, or with a carriage return
/// and a line feed, neither of which belongs to it; the last line may end
/// with the text.
pub open spec fn split_lines(s: Seq<char>) -> Seq<Seq<char>>
    decreases s.len(),
    via split_lines_decreases
{
    if s.len() == 0 {
        Seq::<Seq<char>>::empty()
    } else if line_len(s) < s.len() {
        seq![strip_return(s.take(line_len(s)))] + split_lines(s.skip(line_len(s) + 1))
    } else {
        seq![s]
    }
}

#[via_fn]
proof fn split_lines_decreases(s: Seq<char>) {
    lemma_line_len_bounds(s);
}

pub proof fn lemma_line_len_bounds(s: Seq<char>)
    ensures
        0 <= line_len(s) <= s.len(),
        line_len(s) < s.len() ==> s[line_len(s)] == '\n',
    decreases s.len(),
{
    if s.len() == 0 || s[0] == '\n' {
    } else {
        lemma_line_len_bounds(s.skip(1));
        if line_len(s) < s.len() {
            assert(s[line_len(s)] == s.skip(1)[line_len(s) - 1]);
        }
    }
}

/// The places of the lines of `s`: for each line, in order, where it starts
/// and where it ends.
pub fn line_ranges(s: &Vec<char>) -> (r: Vec<(usize, usize)>)
    ensures
        r@.len() == split_lines(s@).len(),
        forall|k: int|
            0 <= k < r@.len() ==> (#[trigger] r@[k]).0 <= r@[k].1 <= s@.len() && s@.subrange(
                r@[k].0 as int,
                r@[k].1 as int,
            ) == split_lines(s@)[k],
{
    let n = s.len();
    let mut r: Vec<(usize, usize)> = Vec::new();
    let mut i: usize = 0;
    assert(s@.skip(0) == s@);
    while i < n
        invariant
            i <= n,
            n == s@.len(),
            split_lines(s@).len() == r@.len() + split_lines(s@.skip(i as int)).len(),
            forall|k: int|
                0 <= k < r@.len() ==> (#[trigger] r@[k]).0 <= r@[k].1 <= s@.len() && s@.subrange(
                    r@[k].0 as int,
                    r@[k].1 as int,
                ) == split_lines(s@)[k],
            forall|k: int|
                0 <= k < split_lines(s@.skip(i as int)).len() ==> #[trigger] split_lines(
                    s@.skip(i as int),
                )[k] == split_lines(s@)[r@.len() + k],
        decreases n - i,
    {
        let ghost rest = s@.skip(i as int);
        let start = i;
        let mut j: usize = i;
        while j < n && s[j] != '\n'
            invariant
                start <= j <= n,
                n == s@.len(),
                rest == s@.skip(start as int),
                line_len(rest) == (j - start) + line_len(s@.skip(j as int)),
            decreases n - j,
        {
            assert(s@.skip(j as int).skip(1) == s@.skip(j + 1));
            j += 1;
        }
        proof {
            lemma_line_len_bounds(rest);
            assert(line_len(s@.skip(j as int)) == 0);
            assert(rest.take(j - start) == s@.subrange(start as int, j as int));
        }
        if j < n {
            let end: usize = if j > start && s[j - 1] == '\r' {
                j - 1
            } else {
                j
            };
            proof {
                let line = rest.take(j - start);
                assert(strip_return(line) == s@.subrange(start as int, end as int));
                assert(rest.skip(j - start + 1) == s@.skip(j + 1));
                let tail = split_lines(s@.skip(j + 1));
                assert(split_lines(rest) == seq![strip_return(line)] + tail);
                assert forall|k: int| 0 <= k < tail.len() implies #[trigger] tail[k]
                    == split_lines(s@)[r@.len() + 1 + k] by {
                    assert(split_lines(rest)[k + 1] == tail[k]);
                }
                assert(split_lines(rest)[0] == s@.subrange(start as int, end as int));
            }
            r.push((start, end));
            i = j + 1;
        } else {
            proof {
                assert(split_lines(rest) == seq![rest]);
                assert(split_lines(rest)[0] == s@.subrange(start as int, n as int));
                assert(s@.skip(n as int).len() == 0);
            }
            r.push((start, n));
            i = n;
        }
    }
    r
}

/// The lines joined again, with a line feed between each two.
pub open spec fn join_lines(lines: Seq<Seq<char>>) -> Seq<char>
    decreases lines.len(),
{
    if lines.len() == 0 {
        Seq::<char>::empty()
    } else if lines.len() == 1 {
        lines[0]
    } else {
        join_lines(lines.drop_last()) + seq!['\n'] + lines.last()
    }
}

} // verus!
