//! Text as sequences of characters: the small vocabulary of scanning
//! operations that the parsers of command output are built from.

use vstd::prelude::*;

verus! {

/// Appends a character with `String::push`.
pub assume_specification[ String::push ](text: &mut String, c: char)
    ensures
        final(text)@ == old(text)@.push(c),
;

/// The characters of a string, in order.
pub fn chars_of(s: &str) -> (out: Vec<char>)
    ensures
        out@ == s@,
{
    let mut out: Vec<char> = Vec::new();
    for c in it: s.chars()
        invariant
            it.seq() == s@,
            out@ == it.seq().take(it.index() as int),
    {
        proof {
            assert(it.seq().take(it.index() + 1) =~= it.seq().take(it.index() as int).push(c));
        }
        out.push(c);
    }
    assert(s@.take(s@.len() as int) =~= s@);
    out
}

/// The string made of the given characters.
pub fn string_of(chars: &Vec<char>) -> (out: String)
    ensures
        out@ == chars@,
{
    let mut out = String::new();
    let mut index: usize = 0;
    while index < chars.len()
        invariant
            index <= chars.len(),
            out@ == chars@.take(index as int),
        decreases chars.len() - index,
    {
        out.push(chars[index]);
        assert(chars@.take(index + 1) =~= chars@.take(index as int).push(chars@[index as int]));
        index = index + 1;
    }
    assert(chars@.take(chars.len() as int) =~= chars@);
    out
}

/// The characters from `from` up to, not including, `to`.
pub fn slice_of(chars: &Vec<char>, from: usize, to: usize) -> (out: Vec<char>)
    requires
        from <= to <= chars.len(),
    ensures
        out@ == chars@.subrange(from as int, to as int),
{
    let mut out: Vec<char> = Vec::new();
    let mut index: usize = from;
    while index < to
        invariant
            from <= index <= to <= chars.len(),
            out@ == chars@.subrange(from as int, index as int),
        decreases to - index,
    {
        out.push(chars[index]);
        assert(chars@.subrange(from as int, index + 1) =~= chars@.subrange(
            from as int,
            index as int,
        ).push(chars@[index as int]));
        index = index + 1;
    }
    out
}

/// Whether two texts are the same.
pub fn same_text(left: &Vec<char>, right: &Vec<char>) -> (same: bool)
    ensures
        same == (left@ == right@),
{
    if left.len() != right.len() {
        return false;
    }
    let mut index: usize = 0;
    while index < left.len()
        invariant
            index <= left.len(),
            left.len() == right.len(),
            forall|i: int| 0 <= i < index ==> left@[i] == right@[i],
        decreases left.len() - index,
    {
        if left[index] != right[index] {
            return false;
        }
        index = index + 1;
    }
    assert(left@ =~= right@);
    true
}

/// The length of the longest prefix whose characters all satisfy `pred`.
pub open spec fn prefix_len(s: Seq<char>, pred: spec_fn(char) -> bool) -> int
    decreases s.len(),
{
    if s.len() > 0 && pred(s[0]) {
        1 + prefix_len(s.skip(1), pred)
    } else {
        0
    }
}

/// The length of the longest suffix whose characters all satisfy `pred`.
pub open spec fn suffix_len(s: Seq<char>, pred: spec_fn(char) -> bool) -> int
    decreases s.len(),
{
    if s.len() > 0 && pred(s.last()) {
        1 + suffix_len(s.drop_last(), pred)
    } else {
        0
    }
}

/// A prefix of characters that satisfy `pred`, followed by the end or by one
/// that does not, is the longest such prefix.
pub proof fn lemma_prefix_len_is(s: Seq<char>, pred: spec_fn(char) -> bool, n: int)
    requires
        0 <= n <= s.len(),
        forall|i: int| 0 <= i < n ==> pred(#[trigger] s[i]),
        n < s.len() ==> !pred(s[n]),
    ensures
        prefix_len(s, pred) == n,
    decreases n,
{
    if n > 0 {
        let rest = s.skip(1);
        assert(pred(s[0]));
        assert forall|i: int| 0 <= i < n - 1 implies pred(#[trigger] rest[i]) by {
            assert(rest[i] == s[i + 1]);
        }
        if n - 1 < rest.len() {
            assert(rest[n - 1] == s[n]);
        }
        lemma_prefix_len_is(rest, pred, n - 1);
    }
}

/// A suffix of characters that satisfy `pred`, preceded by the start or by
/// one that does not, is the longest such suffix.
pub proof fn lemma_suffix_len_is(s: Seq<char>, pred: spec_fn(char) -> bool, n: int)
    requires
        0 <= n <= s.len(),
        forall|i: int| s.len() - n <= i < s.len() ==> pred(#[trigger] s[i]),
        n < s.len() ==> !pred(s[s.len() - n - 1]),
    ensures
        suffix_len(s, pred) == n,
    decreases n,
{
    if n > 0 {
        let rest = s.drop_last();
        assert(pred(s[s.len() - 1]));
        assert forall|i: int| rest.len() - (n - 1) <= i < rest.len() implies pred(
            #[trigger] rest[i],
        ) by {
            assert(rest[i] == s[i]);
        }
        if n - 1 < rest.len() {
            assert(rest[rest.len() - (n - 1) - 1] == s[s.len() - n - 1]);
        }
        lemma_suffix_len_is(rest, pred, n - 1);
    }
}

/// Whether a character is white space.
pub open spec fn is_whitespace(c: char) -> bool {
    let code = c as u32;
    ||| 0x09 <= code <= 0x0D
    ||| code == 0x20
    ||| code == 0x85
    ||| code == 0xA0
    ||| code == 0x1680
    ||| 0x2000 <= code <= 0x200A
    ||| code == 0x2028
    ||| code == 0x2029
    ||| code == 0x202F
    ||| code == 0x205F
    ||| code == 0x3000
}

/// Whether a character is white space.
pub fn whitespace(c: char) -> (white: bool)
    ensures
        white == is_whitespace(c),
{
    let code: u32 = c as u32;
    (0x09 <= code && code <= 0x0D) || code == 0x20 || code == 0x85 || code == 0xA0 || code
        == 0x1680 || (0x2000 <= code && code <= 0x200A) || code == 0x2028 || code == 0x2029
        || code == 0x202F || code == 0x205F || code == 0x3000
}

/// The predicate that holds of white space.
pub open spec fn blank() -> spec_fn(char) -> bool {
    |c: char| is_whitespace(c)
}

/// The predicate that holds of all but white space.
pub open spec fn non_blank() -> spec_fn(char) -> bool {
    |c: char| !is_whitespace(c)
}

/// The predicate that holds of every character but `mark`.
pub open spec fn not_char(mark: char) -> spec_fn(char) -> bool {
    |c: char| c != mark
}

/// A text without its leading white space.
pub open spec fn trim_start_of(s: Seq<char>) -> Seq<char> {
    s.skip(prefix_len(s, blank()))
}

/// A text without its trailing white space.
pub open spec fn trim_end_of(s: Seq<char>) -> Seq<char> {
    s.take(s.len() - suffix_len(s, blank()))
}

/// A text without its leading and trailing white space.
pub open spec fn trim_of(s: Seq<char>) -> Seq<char> {
    trim_end_of(trim_start_of(s))
}

/// The pieces of a text between the occurrences of `mark`. A text without
/// the mark is its own single piece.
pub open spec fn split_on(s: Seq<char>, mark: char) -> Seq<Seq<char>>
    decreases s.len(),
{
    let n = prefix_len(s, not_char(mark));
    if 0 <= n < s.len() {
        seq![s.take(n)] + split_on(s.skip(n + 1), mark)
    } else {
        seq![s]
    }
}

/// The words of a text: its maximal runs of characters other than white
/// space.
pub open spec fn tokens_of(s: Seq<char>) -> Seq<Seq<char>>
    decreases s.len(),
{
    if s.len() == 0 {
        Seq::empty()
    } else if is_whitespace(s[0]) {
        tokens_of(s.skip(1))
    } else {
        let n = prefix_len(s, non_blank());
        if 0 < n <= s.len() {
            seq![s.take(n)] + tokens_of(s.skip(n))
        } else {
            Seq::empty()
        }
    }
}

/// The texts that a list of character vectors holds, in order.
pub open spec fn texts_of(pieces: Seq<Vec<char>>) -> Seq<Seq<char>> {
    Seq::new(pieces.len(), |i: int| pieces[i]@)
}

/// A text without its leading and trailing white space.
pub fn trim(chars: &Vec<char>) -> (out: Vec<char>)
    ensures
        out@ == trim_of(chars@),
{
    let mut start: usize = 0;
    while start < chars.len() && whitespace(chars[start])
        invariant
            start <= chars.len(),
            forall|i: int| 0 <= i < start ==> is_whitespace(#[trigger] chars@[i]),
        decreases chars.len() - start,
    {
        start = start + 1;
    }
    let mut end: usize = chars.len();
    while end > start && whitespace(chars[end - 1])
        invariant
            start <= end <= chars.len(),
            forall|i: int| end <= i < chars.len() ==> is_whitespace(#[trigger] chars@[i]),
        decreases end,
    {
        end = end - 1;
    }
    proof {
        let s = chars@;
        lemma_prefix_len_is(s, blank(), start as int);
        let t = s.skip(start as int);
        let n = s.len() - end;
        assert forall|i: int| t.len() - n <= i < t.len() implies blank()(#[trigger] t[i]) by {
            assert(t[i] == s[start + i]);
        }
        if n < t.len() {
            assert(t[t.len() - n - 1] == s[end - 1]);
        }
        lemma_suffix_len_is(t, blank(), n);
        assert(t.take(t.len() - n) =~= s.subrange(start as int, end as int));
    }
    slice_of(chars, start, end)
}

/// The pieces of a text between the occurrences of `mark`.
pub fn split(chars: &Vec<char>, mark: char) -> (pieces: Vec<Vec<char>>)
    ensures
        texts_of(pieces@) == split_on(chars@, mark),
{
    let mut pieces: Vec<Vec<char>> = Vec::new();
    let mut start: usize = 0;
    let mut index: usize = 0;
    assert(chars@.skip(0) =~= chars@);
    assert(texts_of(pieces@) + split_on(chars@, mark) =~= split_on(chars@, mark));
    while index < chars.len()
        invariant
            start <= index <= chars.len(),
            forall|i: int| start <= i < index ==> #[trigger] chars@[i] != mark,
            split_on(chars@, mark) == texts_of(pieces@) + split_on(chars@.skip(start as int), mark),
        decreases chars.len() - index,
    {
        if chars[index] == mark {
            let piece = slice_of(chars, start, index);
            proof {
                let rest = chars@.skip(start as int);
                let n = index - start;
                assert forall|i: int| 0 <= i < n implies not_char(mark)(#[trigger] rest[i]) by {
                    assert(rest[i] == chars@[start + i]);
                }
                assert(rest[n] == chars@[index as int]);
                lemma_prefix_len_is(rest, not_char(mark), n);
                assert(rest.take(n) =~= piece@);
                assert(rest.skip(n + 1) =~= chars@.skip(index + 1));
                assert(texts_of(pieces@.push(piece)) =~= texts_of(pieces@) + seq![piece@]);
            }
            pieces.push(piece);
            start = index + 1;
        }
        index = index + 1;
    }
    let piece = slice_of(chars, start, index);
    proof {
        let rest = chars@.skip(start as int);
        assert forall|i: int| 0 <= i < rest.len() implies not_char(mark)(#[trigger] rest[i]) by {
            assert(rest[i] == chars@[start + i]);
        }
        lemma_prefix_len_is(rest, not_char(mark), rest.len() as int);
        assert(rest =~= piece@);
        assert(texts_of(pieces@.push(piece)) =~= texts_of(pieces@) + seq![piece@]);
    }
    pieces.push(piece);
    pieces
}

/// The words of a text.
pub fn tokens(chars: &Vec<char>) -> (words: Vec<Vec<char>>)
    ensures
        texts_of(words@) == tokens_of(chars@),
{
    let mut words: Vec<Vec<char>> = Vec::new();
    let mut index: usize = 0;
    assert(chars@.skip(0) =~= chars@);
    assert(texts_of(words@) + tokens_of(chars@) =~= tokens_of(chars@));
    while index < chars.len()
        invariant
            index <= chars.len(),
            tokens_of(chars@) == texts_of(words@) + tokens_of(chars@.skip(index as int)),
        decreases chars.len() - index,
    {
        let ghost rest = chars@.skip(index as int);
        if whitespace(chars[index]) {
            assert(rest[0] == chars@[index as int]);
            assert(rest.skip(1) =~= chars@.skip(index + 1));
            index = index + 1;
        } else {
            let start = index;
            while index < chars.len() && !whitespace(chars[index])
                invariant
                    start <= index <= chars.len(),
                    forall|i: int| start <= i < index ==> !is_whitespace(#[trigger] chars@[i]),
                decreases chars.len() - index,
            {
                index = index + 1;
            }
            let word = slice_of(chars, start, index);
            proof {
                let n = index - start;
                assert(rest[0] == chars@[start as int]);
                assert forall|i: int| 0 <= i < n implies non_blank()(#[trigger] rest[i]) by {
                    assert(rest[i] == chars@[start + i]);
                }
                if n < rest.len() {
                    assert(rest[n] == chars@[index as int]);
                }
                lemma_prefix_len_is(rest, non_blank(), n);
                assert(rest.take(n) =~= word@);
                assert(rest.skip(n) =~= chars@.skip(index as int));
                assert(texts_of(words@.push(word)) =~= texts_of(words@) + seq![word@]);
            }
            words.push(word);
        }
    }
    assert(tokens_of(chars@.skip(chars.len() as int)) =~= Seq::<Seq<char>>::empty());
    words
}

/// Whether a character is a decimal digit.
pub open spec fn is_digit(c: char) -> bool {
    0x30 <= c as u32 <= 0x39
}

/// The value of a decimal digit.
pub open spec fn digit_value(c: char) -> int {
    c as u32 - 0x30
}

/// Whether all characters are decimal digits.
pub open spec fn all_digits(s: Seq<char>) -> bool {
    forall|i: int| 0 <= i < s.len() ==> is_digit(#[trigger] s[i])
}

/// The number that a run of decimal digits denotes.
pub open spec fn decimal_value(digits: Seq<char>) -> int
    decreases digits.len(),
{
    if digits.len() == 0 {
        0
    } else {
        decimal_value(digits.drop_last()) * 10 + digit_value(digits.last())
    }
}

/// The number that a text denotes as an unsigned decimal no larger than
/// `max`: one or more digits, with or without a plus sign before them.
pub open spec fn unsigned_of(s: Seq<char>, max: int) -> Option<int> {
    let digits = if s.len() > 0 && s[0] == '+' {
        s.skip(1)
    } else {
        s
    };
    if digits.len() > 0 && all_digits(digits) && decimal_value(digits) <= max {
        Some(decimal_value(digits))
    } else {
        None
    }
}

/// The number that a text denotes as a run of one or more decimal digits,
/// no larger than `max`.
pub open spec fn digits_of(s: Seq<char>, max: int) -> Option<int> {
    if s.len() > 0 && all_digits(s) && decimal_value(s) <= max {
        Some(decimal_value(s))
    } else {
        None
    }
}

/// A run of digits denotes no less than any of its prefixes.
pub proof fn lemma_decimal_prefix(digits: Seq<char>, n: int)
    requires
        all_digits(digits),
        0 <= n <= digits.len(),
    ensures
        0 <= decimal_value(digits.take(n)) <= decimal_value(digits),
    decreases digits.len(),
{
    if n == digits.len() {
        assert(digits.take(n) =~= digits);
        if digits.len() > 0 {
            assert(is_digit(digits[digits.len() - 1]));
            assert(all_digits(digits.drop_last()));
            lemma_decimal_prefix(digits.drop_last(), n - 1);
        }
    } else {
        assert(is_digit(digits[digits.len() - 1]));
        assert(all_digits(digits.drop_last()));
        assert(digits.drop_last().take(n) =~= digits.take(n));
        lemma_decimal_prefix(digits.drop_last(), n);
        lemma_decimal_prefix(digits.drop_last(), digits.len() - 1);
    }
}

/// The number that the characters from `from` on denote as a run of one or
/// more decimal digits, no larger than `max`.
pub fn parse_digits_from(chars: &Vec<char>, from: usize, max: u64) -> (value: Option<u64>)
    requires
        from <= chars.len(),
    ensures
        match value {
            Some(v) => digits_of(chars@.skip(from as int), max as int) == Some(v as int),
            None => digits_of(chars@.skip(from as int), max as int) is None,
        },
{
    let ghost digits = chars@.skip(from as int);
    if from == chars.len() {
        return None;
    }
    let mut value: u64 = 0;
    let mut index: usize = from;
    assert(digits.take(0) =~= Seq::<char>::empty());
    while index < chars.len()
        invariant
            from <= index <= chars.len(),
            digits == chars@.skip(from as int),
            forall|i: int| 0 <= i < index - from ==> is_digit(#[trigger] digits[i]),
            value == decimal_value(digits.take(index - from)),
            value <= max,
        decreases chars.len() - index,
    {
        let code: u32 = chars[index] as u32;
        proof {
            assert(digits[index - from] == chars@[index as int]);
            assert(digits.take(index - from + 1).drop_last() =~= digits.take(index - from));
            assert(digits.take(index - from + 1).last() == chars@[index as int]);
        }
        if code < 0x30 || code > 0x39 {
            return None;
        }
        let next: u128 = value as u128 * 10 + (code - 0x30) as u128;
        if next > max as u128 {
            proof {
                if all_digits(digits) {
                    lemma_decimal_prefix(digits, index - from + 1);
                }
            }
            return None;
        }
        value = next as u64;
        index = index + 1;
    }
    assert(digits.take(digits.len() as int) =~= digits);
    Some(value)
}

/// The number that a text denotes as an unsigned decimal no larger than
/// `max`, with or without a plus sign.
pub fn parse_unsigned(chars: &Vec<char>, max: u64) -> (value: Option<u64>)
    ensures
        match value {
            Some(v) => unsigned_of(chars@, max as int) == Some(v as int),
            None => unsigned_of(chars@, max as int) is None,
        },
{
    if chars.len() > 0 && chars[0] == '+' {
        parse_digits_from(chars, 1, max)
    } else {
        assert(chars@.skip(0) =~= chars@);
        parse_digits_from(chars, 0, max)
    }
}

/// Where `mark` first occurs; the length of the text if it does not occur.
pub fn find_char(chars: &Vec<char>, mark: char) -> (index: usize)
    ensures
        index == prefix_len(chars@, not_char(mark)),
        index <= chars.len(),
        index < chars.len() ==> chars@[index as int] == mark,
{
    let mut index: usize = 0;
    while index < chars.len() && chars[index] != mark
        invariant
            index <= chars.len(),
            forall|i: int| 0 <= i < index ==> #[trigger] chars@[i] != mark,
        decreases chars.len() - index,
    {
        index = index + 1;
    }
    proof {
        lemma_prefix_len_is(chars@, not_char(mark), index as int);
    }
    index
}

/// Whether a text begins with another.
pub fn starts_with(chars: &Vec<char>, prefix: &Vec<char>) -> (begins: bool)
    ensures
        begins == prefix@.is_prefix_of(chars@),
{
    if prefix.len() > chars.len() {
        return false;
    }
    let mut index: usize = 0;
    while index < prefix.len()
        invariant
            index <= prefix.len() <= chars.len(),
            forall|i: int| 0 <= i < index ==> chars@[i] == prefix@[i],
        decreases prefix.len() - index,
    {
        if chars[index] != prefix[index] {
            return false;
        }
        index = index + 1;
    }
    true
}

/// The predicate that holds of decimal digits.
pub open spec fn digit() -> spec_fn(char) -> bool {
    |c: char| is_digit(c)
}

/// Whether a character is the given lower-case letter, in either case.
pub open spec fn is_letter(c: char, lower: char) -> bool {
    c == lower || (0x41 <= c as u32 <= 0x5A && c as u32 + 0x20 == lower as u32)
}

/// Whether a text is the given lower-case word, in whatever case.
pub open spec fn is_word(s: Seq<char>, word: Seq<char>) -> bool {
    s.len() == word.len() && forall|i: int| 0 <= i < s.len() ==> is_letter(#[trigger] s[i], word[i])
}

/// Whether a text is an exponent: the letter `e`, in either case, and one
/// or more digits, with or without a sign before them.
pub open spec fn is_exponent(s: Seq<char>) -> bool {
    s.len() >= 2 && (s[0] == 'e' || s[0] == 'E') && {
        let digits = if s[1] == '+' || s[1] == '-' {
            s.skip(2)
        } else {
            s.skip(1)
        };
        digits.len() > 0 && all_digits(digits)
    }
}

/// Whether a text is a number in decimal notation: digits, with or without
/// a point among, before or after them, and with or without an exponent
/// behind.
pub open spec fn is_decimal(s: Seq<char>) -> bool {
    let whole = prefix_len(s, digit());
    let rest = s.skip(whole);
    if rest.len() > 0 && rest[0] == '.' {
        let fraction = prefix_len(rest.skip(1), digit());
        let tail = rest.skip(1 + fraction);
        whole + fraction > 0 && (tail.len() == 0 || is_exponent(tail))
    } else {
        whole > 0 && (rest.len() == 0 || is_exponent(rest))
    }
}

/// Whether a text can be read as a floating-point number: a number in
/// decimal notation, or one of the words `inf`, `infinity` and `nan` in
/// whatever case, with or without a sign before it.
pub open spec fn is_float_text(s: Seq<char>) -> bool {
    let body = if s.len() > 0 && (s[0] == '+' || s[0] == '-') {
        s.skip(1)
    } else {
        s
    };
    is_word(body, "inf"@) || is_word(body, "infinity"@) || is_word(body, "nan"@) || is_decimal(body)
}

/// Whether `pattern` occurs in a text.
pub open spec fn contains_text(s: Seq<char>, pattern: Seq<char>) -> bool {
    exists|at: int|
        0 <= at <= s.len() - pattern.len() && #[trigger] s.subrange(at, at + pattern.len())
            == pattern
}

/// How many digits stand at `from`.
pub fn digits_run(chars: &Vec<char>, from: usize) -> (run: usize)
    requires
        from <= chars.len(),
    ensures
        run == prefix_len(chars@.skip(from as int), digit()),
        from + run <= chars.len(),
{
    let ghost rest = chars@.skip(from as int);
    let mut index: usize = from;
    while index < chars.len() && 0x30 <= chars[index] as u32 && chars[index] as u32 <= 0x39
        invariant
            from <= index <= chars.len(),
            rest == chars@.skip(from as int),
            forall|i: int| 0 <= i < index - from ==> is_digit(#[trigger] rest[i]),
        decreases chars.len() - index,
    {
        assert(rest[index - from] == chars@[index as int]);
        index = index + 1;
    }
    proof {
        if index < chars.len() {
            assert(rest[index - from] == chars@[index as int]);
        }
        lemma_prefix_len_is(rest, digit(), index - from);
    }
    index - from
}

/// Whether one or more digits, and nothing else, stand from `from` on.
fn only_digits_from(chars: &Vec<char>, from: usize) -> (only: bool)
    requires
        from <= chars.len(),
    ensures
        only == (chars@.skip(from as int).len() > 0 && all_digits(chars@.skip(from as int))),
{
    let run = digits_run(chars, from);
    proof {
        let rest = chars@.skip(from as int);
        if run == rest.len() {
            assert(all_digits(rest)) by {
                assert forall|i: int| 0 <= i < rest.len() implies is_digit(#[trigger] rest[i]) by {
                    lemma_prefix_holds(rest, digit(), i);
                }
            }
        } else {
            lemma_prefix_stops(rest, digit());
        }
    }
    run > 0 && from + run == chars.len()
}

/// Every character of the longest prefix satisfies the predicate.
pub proof fn lemma_prefix_holds(s: Seq<char>, pred: spec_fn(char) -> bool, i: int)
    requires
        0 <= i < prefix_len(s, pred),
    ensures
        i < s.len(),
        pred(s[i]),
    decreases s.len(),
{
    if s.len() > 0 && pred(s[0]) {
        if i > 0 {
            lemma_prefix_holds(s.skip(1), pred, i - 1);
            assert(s.skip(1)[i - 1] == s[i]);
        }
    }
}

/// The longest prefix lies within the text, and the character after it, if
/// there is one, fails the predicate.
pub proof fn lemma_prefix_stops(s: Seq<char>, pred: spec_fn(char) -> bool)
    ensures
        0 <= prefix_len(s, pred) <= s.len(),
        prefix_len(s, pred) < s.len() ==> !pred(s[prefix_len(s, pred)]),
    decreases s.len(),
{
    if s.len() > 0 && pred(s[0]) {
        lemma_prefix_stops(s.skip(1), pred);
        if prefix_len(s, pred) < s.len() {
            assert(s.skip(1)[prefix_len(s.skip(1), pred)] == s[prefix_len(s, pred)]);
        }
    }
}

/// Whether the characters from `from` on are an exponent.
fn exponent_from(chars: &Vec<char>, from: usize) -> (exponent: bool)
    requires
        from <= chars.len(),
    ensures
        exponent == is_exponent(chars@.skip(from as int)),
{
    let ghost rest = chars@.skip(from as int);
    if chars.len() - from < 2 {
        return false;
    }
    assert(rest[0] == chars@[from as int]);
    assert(rest[1] == chars@[from + 1]);
    if chars[from] != 'e' && chars[from] != 'E' {
        return false;
    }
    assert(rest.skip(1) =~= chars@.skip(from + 1));
    assert(rest.skip(2) =~= chars@.skip(from + 2));
    if chars[from + 1] == '+' || chars[from + 1] == '-' {
        only_digits_from(chars, from + 2)
    } else {
        only_digits_from(chars, from + 1)
    }
}

/// Whether the characters from `from` on are a number in decimal notation.
fn decimal_from(chars: &Vec<char>, from: usize) -> (decimal: bool)
    requires
        from <= chars.len(),
    ensures
        decimal == is_decimal(chars@.skip(from as int)),
{
    let ghost body = chars@.skip(from as int);
    let whole = digits_run(chars, from);
    let at = from + whole;
    assert(body.skip(whole as int) =~= chars@.skip(at as int));
    if at < chars.len() && chars[at] == '.' {
        assert(body.skip(whole as int)[0] == chars@[at as int]);
        assert(body.skip(whole as int).skip(1) =~= chars@.skip(at + 1));
        let fraction = digits_run(chars, at + 1);
        let tail = at + 1 + fraction;
        assert(body.skip(whole as int).skip(1 + fraction) =~= chars@.skip(tail as int));
        whole + fraction > 0 && (tail == chars.len() || exponent_from(chars, tail))
    } else {
        if at < chars.len() {
            assert(body.skip(whole as int)[0] == chars@[at as int]);
        }
        whole > 0 && (at == chars.len() || exponent_from(chars, at))
    }
}

/// Whether the characters from `from` on are the given lower-case word, in
/// whatever case.
fn word_from(chars: &Vec<char>, from: usize, word: &str) -> (same: bool)
    requires
        from <= chars.len(),
    ensures
        same == is_word(chars@.skip(from as int), word@),
{
    let ghost rest = chars@.skip(from as int);
    let ghost wanted = word@;
    let letters = chars_of(word);
    if chars.len() - from != letters.len() {
        return false;
    }
    let mut index: usize = 0;
    while index < letters.len()
        invariant
            index <= letters.len(),
            chars.len() - from == letters.len(),
            rest == chars@.skip(from as int),
            letters@ == wanted,
            wanted == word@,
            forall|i: int| 0 <= i < index ==> is_letter(#[trigger] rest[i], wanted[i]),
        decreases letters.len() - index,
    {
        let c = chars[from + index];
        let lower = letters[index];
        assert(rest[index as int] == c);
        let code: u32 = c as u32;
        if !(c == lower || (0x41 <= code && code <= 0x5A && code + 0x20 == lower as u32)) {
            return false;
        }
        index = index + 1;
    }
    true
}

/// Whether a text can be read as a floating-point number.
pub fn float_text(chars: &Vec<char>) -> (float: bool)
    ensures
        float == is_float_text(chars@),
{
    let from: usize = if chars.len() > 0 && (chars[0] == '+' || chars[0] == '-') {
        1
    } else {
        0
    };
    assert(chars@.skip(0) =~= chars@);
    word_from(chars, from, "inf") || word_from(chars, from, "infinity") || word_from(
        chars,
        from,
        "nan",
    ) || decimal_from(chars, from)
}

/// Whether `pattern` occurs in a text.
pub fn contains(chars: &Vec<char>, pattern: &Vec<char>) -> (found: bool)
    ensures
        found == contains_text(chars@, pattern@),
{
    if pattern.len() > chars.len() {
        return false;
    }
    let last = chars.len() - pattern.len();
    let mut at: usize = 0;
    while at <= last
        invariant
            at <= last + 1,
            last == chars.len() - pattern.len(),
            forall|i: int| 0 <= i < at ==> #[trigger] chars@.subrange(i, i + pattern.len())
                != pattern@,
        decreases last + 1 - at,
    {
        let mut index: usize = 0;
        while index < pattern.len() && chars[at + index] == pattern[index]
            invariant
                index <= pattern.len(),
                at <= last,
                last == chars.len() - pattern.len(),
                forall|i: int| 0 <= i < index ==> chars@[at + i] == pattern@[i],
            decreases pattern.len() - index,
        {
            index = index + 1;
        }
        if index == pattern.len() {
            assert(chars@.subrange(at as int, at + pattern.len()) =~= pattern@);
            return true;
        }
        assert(chars@.subrange(at as int, at + pattern.len())[index as int]
            != pattern@[index as int]);
        at = at + 1;
    }
    false
}

} // verus!
