//! Text operations over sequences of characters.
use vstd::prelude::*;
use vstd::arithmetic::power::pow;

verus! {

/// Appends one character: `String::push` leaves the text it had, followed by
/// that character.
pub assume_specification[ String::push ](text: &mut String, c: char)
    ensures
        final(text)@ == old(text)@.push(c),
;

/// Compares two texts: `str`'s `==` holds exactly when both hold the same
/// characters in the same order.
pub assume_specification[ <str as PartialEq<str>>::eq ](a: &str, b: &str) -> (same: bool)
    ensures
        same == (a@ == b@),
;

/// The characters of `text`, one after another.
pub fn characters(text: &str) -> (chars: Vec<char>)
    ensures
        chars@ == text@,
{
    let mut chars: Vec<char> = Vec::new();
    for c in it: text.chars()
        invariant
            chars@ == it.seq().take(it.index() as int),
            it.seq() == text@,
    {
        chars.push(c);
    }
    chars
}

/// All of `parts`, with `separator` between each two neighbours.
pub open spec fn separated(parts: Seq<Seq<char>>, separator: Seq<char>) -> Seq<char>
    decreases parts.len(),
{
    if parts.len() == 0 {
        Seq::empty()
    } else if parts.len() == 1 {
        parts[0]
    } else {
        separated(parts.drop_last(), separator) + separator + parts.last()
    }
}

/// The characters of each text.
pub open spec fn texts(parts: Seq<&str>) -> Seq<Seq<char>> {
    parts.map_values(|part: &str| part@)
}

/// The characters of a text, if there is one.
pub open spec fn text_of_option(text: Option<String>) -> Option<Seq<char>> {
    match text {
        Some(text) => Some(text@),
        None => None,
    }
}

/// Puts texts one after another, with `separator` between each two neighbours.
pub fn join(parts: &Vec<&str>, separator: &str) -> (text: String)
    ensures
        text@ == separated(texts(parts@), separator@),
{
    let mut text = String::new();
    let ghost all = texts(parts@);
    for i in 0..parts.len()
        invariant
            all == texts(parts@),
            text@ == separated(all.take(i as int), separator@),
    {
        assert(all.take(i + 1).drop_last() == all.take(i as int));
        if i > 0 {
            text.append(separator);
        }
        text.append(parts[i]);
    }
    assert(all.take(parts@.len() as int) == all);
    text
}

/// The characters with the Unicode property White_Space.
pub open spec fn white_space(c: char) -> bool {
    ||| '\u{9}' <= c <= '\u{d}'
    ||| c == ' '
    ||| c == '\u{85}'
    ||| c == '\u{a0}'
    ||| c == '\u{1680}'
    ||| '\u{2000}' <= c <= '\u{200a}'
    ||| c == '\u{2028}'
    ||| c == '\u{2029}'
    ||| c == '\u{202f}'
    ||| c == '\u{205f}'
    ||| c == '\u{3000}'
}

/// Whether `c` is white space.
pub fn is_white_space(c: char) -> (white: bool)
    ensures
        white == white_space(c),
{
    ('\u{9}' <= c && c <= '\u{d}') || c == ' ' || c == '\u{85}' || c == '\u{a0}' || c == '\u{1680}' || (
    '\u{2000}' <= c && c <= '\u{200a}') || c == '\u{2028}' || c == '\u{2029}' || c == '\u{202f}' || c
        == '\u{205f}' || c == '\u{3000}'
}

/// `s` without the white space that it starts with.
pub open spec fn trimmed_start(s: Seq<char>) -> Seq<char>
    decreases s.len(),
{
    if s.len() > 0 && white_space(s[0]) {
        trimmed_start(s.drop_first())
    } else {
        s
    }
}

/// `s` without the white space that it ends with.
pub open spec fn trimmed_end(s: Seq<char>) -> Seq<char>
    decreases s.len(),
{
    if s.len() > 0 && white_space(s.last()) {
        trimmed_end(s.drop_last())
    } else {
        s
    }
}

/// `s` without white space at either end.
pub open spec fn trimmed(s: Seq<char>) -> Seq<char> {
    trimmed_end(trimmed_start(s))
}

/// Takes the white space off both ends.
pub fn trim(text: &str) -> (inner: String)
    ensures
        inner@ == trimmed(text@),
{
    let chars = characters(text);
    let mut start: usize = 0;
    assert(chars@.skip(0) == chars@);
    while start < chars.len() && is_white_space(chars[start])
        invariant
            start <= chars.len(),
            trimmed_start(chars@.skip(start as int)) == trimmed_start(chars@),
        decreases chars.len() - start,
    {
        assert(chars@.skip(start as int).drop_first() == chars@.skip(start + 1));
        start = start + 1;
    }
    let ghost rest = chars@.skip(start as int);
    assert(start < chars.len() ==> rest[0] == chars@[start as int]);
    let mut end: usize = chars.len();
    assert(chars@.subrange(start as int, end as int) == rest);
    while start < end && is_white_space(chars[end - 1])
        invariant
            start <= end <= chars.len(),
            trimmed_end(chars@.subrange(start as int, end as int)) == trimmed_end(rest),
        decreases end - start,
    {
        assert(chars@.subrange(start as int, end as int).drop_last() == chars@.subrange(
            start as int,
            end - 1,
        ));
        end = end - 1;
    }
    let ghost kept = chars@.subrange(start as int, end as int);
    assert(start < end ==> kept.last() == chars@[end - 1]);
    let mut inner = String::new();
    let mut i: usize = start;
    while i < end
        invariant
            start <= i <= end <= chars.len(),
            inner@ == chars@.subrange(start as int, i as int),
        decreases end - i,
    {
        inner.push(chars[i]);
        i = i + 1;
    }
    inner
}

/// What stands in `s` before the first `c`; all of `s` where there is none.
pub open spec fn before_first(s: Seq<char>, c: char) -> Seq<char>
    decreases s.len(),
{
    if s.len() == 0 || s[0] == c {
        Seq::empty()
    } else {
        seq![s[0]] + before_first(s.drop_first(), c)
    }
}

/// Cuts `text` off in front of the first `c`.
pub fn cut_before(text: &str, c: char) -> (head: String)
    ensures
        head@ == before_first(text@, c),
{
    let chars = characters(text);
    let mut head = String::new();
    let mut i: usize = 0;
    assert(chars@.skip(0) == chars@);
    while i < chars.len() && chars[i] != c
        invariant
            i <= chars.len(),
            head@ + before_first(chars@.skip(i as int), c) == before_first(chars@, c),
        decreases chars.len() - i,
    {
        let ghost rest = chars@.skip(i as int);
        assert(rest.drop_first() == chars@.skip(i + 1));
        assert(head@.push(chars@[i as int]) + before_first(rest.drop_first(), c) == head@ + (seq![
            rest[0],
        ] + before_first(rest.drop_first(), c)));
        head.push(chars[i]);
        i = i + 1;
    }
    assert(i < chars.len() ==> chars@.skip(i as int)[0] == chars@[i as int]);
    head
}

/// The number that a decimal digit stands for.
pub open spec fn digit_value(c: char) -> nat {
    (c as int - '0' as int) as nat
}

/// The decimal digit for a number below ten.
pub open spec fn digit(n: nat) -> char {
    ('0' as int + n) as char
}

/// Whether `s` holds decimal digits and nothing else.
pub open spec fn all_digits(s: Seq<char>) -> bool {
    forall|i: int| 0 <= i < s.len() ==> '0' <= #[trigger] s[i] <= '9'
}

/// The number that the digits of `s` stand for.
pub open spec fn digits_value(s: Seq<char>) -> nat
    decreases s.len(),
{
    if s.len() == 0 {
        0
    } else {
        10 * digits_value(s.drop_last()) + digit_value(s.last())
    }
}

/// `n` in decimal notation, without leading zeros.
pub open spec fn decimal(n: nat) -> Seq<char>
    decreases n,
{
    if n < 10 {
        seq![digit(n)]
    } else {
        decimal(n / 10).push(digit(n % 10))
    }
}

/// `s` without the plus sign that it may start with.
pub open spec fn unsigned_part(s: Seq<char>) -> Seq<char> {
    if s.len() > 0 && s[0] == '+' {
        s.drop_first()
    } else {
        s
    }
}

/// The number that `s` writes down: decimal digits, at least one of them,
/// behind an optional plus sign. `None` where `s` is anything else, or the
/// number is over `max`.
pub open spec fn number(s: Seq<char>, max: nat) -> Option<nat> {
    let digits = unsigned_part(s);
    if digits.len() > 0 && all_digits(digits) && digits_value(digits) <= max {
        Some(digits_value(digits))
    } else {
        None
    }
}

/// Writes `n` in decimal notation.
pub fn decimal_text(n: u128) -> (text: String)
    ensures
        text@ == decimal(n as nat),
{
    let mut reversed: Vec<char> = Vec::new();
    let mut rest: u128 = n;
    assert(decimal(n as nat) == decimal(rest as nat) + reversed@.reverse());
    while rest >= 10
        invariant
            decimal(n as nat) == decimal(rest as nat) + reversed@.reverse(),
        decreases rest,
    {
        let c = (48u8 + (rest % 10) as u8) as char;
        assert(c == digit(rest as nat % 10));
        let ghost before = reversed@;
        reversed.push(c);
        assert(reversed@.reverse() == seq![c] + before.reverse());
        assert(decimal(rest as nat / 10).push(c) + before.reverse() == decimal(rest as nat / 10)
            + reversed@.reverse());
        rest = rest / 10;
    }
    let c = (48u8 + rest as u8) as char;
    let ghost before = reversed@;
    reversed.push(c);
    assert(reversed@.reverse() == decimal(rest as nat) + before.reverse());
    let mut text = String::new();
    let mut left: usize = reversed.len();
    while left > 0
        invariant
            left <= reversed.len(),
            text@ == reversed@.reverse().take(reversed.len() - left),
        decreases left,
    {
        left = left - 1;
        text.push(reversed[left]);
    }
    assert(reversed@.reverse().take(reversed.len() as int) == reversed@.reverse());
    text
}

proof fn lemma_digits_value_grows(s: Seq<char>, i: int)
    requires
        0 <= i <= s.len(),
    ensures
        digits_value(s.take(i)) <= digits_value(s),
    decreases s.len(),
{
    if i == s.len() {
        assert(s.take(i) == s);
    } else {
        lemma_digits_value_grows(s.drop_last(), i);
        assert(s.drop_last().take(i) == s.take(i));
    }
}

/// Reads a number of the type `u128`.
pub fn parse_u128(text: &str) -> (parsed: Option<u128>)
    ensures
        match parsed {
            Some(n) => number(text@, u128::MAX as nat) == Some(n as nat),
            None => number(text@, u128::MAX as nat) is None,
        },
{
    let chars = characters(text);
    let start: usize = if chars.len() > 0 && chars[0] == '+' {
        1
    } else {
        0
    };
    let ghost digits = unsigned_part(text@);
    assert(digits == chars@.skip(start as int));
    if start == chars.len() {
        return None;
    }
    let mut n: u128 = 0;
    let mut i: usize = start;
    assert(digits.take(0) == Seq::<char>::empty());
    while i < chars.len()
        invariant
            start <= i <= chars.len(),
            digits == chars@.skip(start as int),
            digits == unsigned_part(text@),
            all_digits(digits.take(i - start)),
            n == digits_value(digits.take(i - start)),
        decreases chars.len() - i,
    {
        let c = chars[i];
        assert(c == digits[i - start]);
        if c < '0' || c > '9' {
            return None;
        }
        let value: u128 = (c as u8 - 48u8) as u128;
        assert(digits.take(i - start + 1).drop_last() == digits.take(i - start));
        assert(value == digit_value(c));
        proof {
            lemma_digits_value_grows(digits, i - start + 1);
        }
        match n.checked_mul(10) {
            None => {
                return None;
            },
            Some(tens) => match tens.checked_add(value) {
                None => {
                    return None;
                },
                Some(sum) => {
                    n = sum;
                },
            },
        }
        assert(digits.take(i - start + 1) == digits.take(i - start).push(c));
        i = i + 1;
    }
    assert(digits.take(digits.len() as int) == digits);
    Some(n)
}

/// Reads a number of the type `u64`.
pub fn parse_u64(text: &str) -> (parsed: Option<u64>)
    ensures
        match parsed {
            Some(n) => number(text@, u64::MAX as nat) == Some(n as nat),
            None => number(text@, u64::MAX as nat) is None,
        },
{
    match parse_u128(text) {
        Some(n) => if n <= u64::MAX as u128 {
            Some(n as u64)
        } else {
            None
        },
        None => None,
    }
}

pub(crate) proof fn lemma_decimal_digits(n: nat)
    ensures
        decimal(n).len() > 0,
        all_digits(decimal(n)),
        digits_value(decimal(n)) == n,
    decreases n,
{
    if n < 10 {
        assert(decimal(n).drop_last() == Seq::<char>::empty());
        assert(digits_value(Seq::<char>::empty()) == 0);
    } else {
        lemma_decimal_digits(n / 10);
        assert(decimal(n).drop_last() == decimal(n / 10));
    }
}

/// Reading the decimal notation of a number gives the number back.
pub proof fn decimal_reads_back(n: nat, max: nat)
    requires
        n <= max,
    ensures
        number(decimal(n), max) == Some(n),
{
    lemma_decimal_digits(n);
    assert('0' <= decimal(n)[0] <= '9');
}

/// Texts are the same number of texts, each of the same characters.
pub proof fn texts_keep_characters(parts: Seq<&str>)
    ensures
        texts(parts).len() == parts.len(),
        forall|i: int| 0 <= i < parts.len() ==> #[trigger] texts(parts)[i] == parts[i]@,
{
}

/// Two lists of texts are put together by putting one separator between what
/// each of them is put together to; one text is put together to itself, and no
/// text to nothing.
pub proof fn separated_splits(a: Seq<Seq<char>>, b: Seq<Seq<char>>, separator: Seq<char>)
    ensures
        a.len() == 0 ==> separated(a, separator).len() == 0,
        a.len() == 1 ==> separated(a, separator) == a[0],
        a.len() > 0 && b.len() > 0 ==> separated(a + b, separator) == separated(a, separator)
            + separator + separated(b, separator),
    decreases b.len(),
{
    if a.len() > 0 && b.len() == 1 {
        assert((a + b).drop_last() == a);
        assert((a + b).last() == b[0]);
    } else if a.len() > 0 && b.len() > 1 {
        separated_splits(a, b.drop_last(), separator);
        assert((a + b).drop_last() == a + b.drop_last());
        assert((a + b).last() == b.last());
        assert(separated(a, separator) + separator + separated(b.drop_last(), separator)
            + separator + b.last() == separated(a, separator) + separator + separated(b, separator));
    }
}

/// What stands in front of the first `c` is the longest start of a text that
/// holds no `c`: it is followed by `c`, or is the whole text.
pub proof fn cut_is_in_front_of_the_first(s: Seq<char>, c: char)
    ensures
        before_first(s, c).len() <= s.len(),
        forall|i: int|
            0 <= i < before_first(s, c).len() ==> #[trigger] before_first(s, c)[i] == s[i] && s[i]
                != c,
        before_first(s, c).len() < s.len() ==> s[before_first(s, c).len() as int] == c,
    decreases s.len(),
{
    if s.len() > 0 && s[0] != c {
        let rest = s.drop_first();
        cut_is_in_front_of_the_first(rest, c);
        assert forall|i: int| 0 <= i < before_first(s, c).len() implies #[trigger] before_first(
            s,
            c,
        )[i] == s[i] && s[i] != c by {
            if i > 0 {
                assert(before_first(rest, c)[i - 1] == rest[i - 1]);
            }
        }
    }
}

/// The parts of `s` between each two neighbouring `c`.
pub open spec fn parted(s: Seq<char>, c: char) -> Seq<Seq<char>>
    decreases s.len(),
{
    let head = before_first(s, c);
    if head.len() >= s.len() {
        seq![s]
    } else {
        seq![head] + parted(s.skip(head.len() as int + 1), c)
    }
}

/// Texts that were put together with a character that none of them holds are
/// the parts between that character.
pub proof fn separated_reads_back(parts: Seq<Seq<char>>, c: char)
    requires
        parts.len() > 0,
        forall|i: int| 0 <= i < parts.len() ==> !(#[trigger] parts[i]).contains(c),
    ensures
        parted(separated(parts, seq![c]), c) == parts,
    decreases parts.len(),
{
    let s = separated(parts, seq![c]);
    let head = before_first(s, c);
    let first = parts[0];
    cut_is_in_front_of_the_first(s, c);
    assert(!parts[0].contains(c));
    if parts.len() == 1 {
        if head.len() < s.len() {
            assert(first.contains(s[head.len() as int]));
        }
        assert(parted(s, c) == parts);
    } else {
        let rest = parts.drop_first();
        assert(parts == seq![first] + rest);
        separated_splits(seq![first], rest, seq![c]);
        assert(s == first + seq![c] + separated(rest, seq![c]));
        assert(s[first.len() as int] == c);
        if head.len() < first.len() {
            assert(first[head.len() as int] == s[head.len() as int]);
            assert(first.contains(c));
        }
        if head.len() > first.len() {
            assert(head[first.len() as int] == s[first.len() as int]);
        }
        assert(head == first);
        assert(s.skip(head.len() as int + 1) == separated(rest, seq![c]));
        assert forall|i: int| 0 <= i < rest.len() implies !(#[trigger] rest[i]).contains(c) by {
            assert(!parts[i + 1].contains(c));
        }
        separated_reads_back(rest, c);
        assert(parted(s, c) == parts);
    }
}

proof fn lemma_trimmed_start(s: Seq<char>) -> (k: int)
    ensures
        0 <= k <= s.len(),
        trimmed_start(s) == s.skip(k),
        forall|i: int| 0 <= i < k ==> white_space(#[trigger] s[i]),
        k < s.len() ==> !white_space(s[k]),
    decreases s.len(),
{
    if s.len() > 0 && white_space(s[0]) {
        let k = lemma_trimmed_start(s.drop_first());
        assert(s.drop_first().skip(k) == s.skip(k + 1));
        assert forall|i: int| 0 <= i < k + 1 implies white_space(#[trigger] s[i]) by {
            if i > 0 {
                assert(white_space(s.drop_first()[i - 1]));
            }
        }
        k + 1
    } else {
        assert(s.skip(0) == s);
        0
    }
}

proof fn lemma_trimmed_end(s: Seq<char>) -> (k: int)
    ensures
        0 <= k <= s.len(),
        trimmed_end(s) == s.take(k),
        forall|i: int| k <= i < s.len() ==> white_space(#[trigger] s[i]),
        0 < k ==> !white_space(s[k - 1]),
    decreases s.len(),
{
    if s.len() > 0 && white_space(s.last()) {
        let k = lemma_trimmed_end(s.drop_last());
        assert(s.drop_last().take(k) == s.take(k));
        assert forall|i: int| k <= i < s.len() implies white_space(#[trigger] s[i]) by {
            if i < s.len() - 1 {
                assert(white_space(s.drop_last()[i]));
            }
        }
        k
    } else {
        assert(s.take(s.len() as int) == s);
        s.len() as int
    }
}

/// Trimming takes white space and nothing else off both ends of a text, and
/// leaves none there.
pub proof fn trimming_takes_white_space_off(s: Seq<char>) -> (ends: (int, int))
    ensures
        0 <= ends.0 <= ends.1 <= s.len(),
        trimmed(s) == s.subrange(ends.0, ends.1),
        forall|i: int| 0 <= i < ends.0 ==> white_space(#[trigger] s[i]),
        forall|i: int| ends.1 <= i < s.len() ==> white_space(#[trigger] s[i]),
        ends.0 < ends.1 ==> !white_space(s[ends.0]) && !white_space(s[ends.1 - 1]),
{
    let a = lemma_trimmed_start(s);
    let t = s.skip(a);
    let k = lemma_trimmed_end(t);
    assert(t.take(k) == s.subrange(a, a + k));
    assert forall|i: int| a + k <= i < s.len() implies white_space(#[trigger] s[i]) by {
        assert(white_space(t[i - a]));
    }
    if k > 0 {
        assert(t[k - 1] == s[a + k - 1]);
    }
    (a, a + k)
}

/// Digits count by their place: what is put in front of others counts ten times
/// as much for each of them.
pub proof fn digits_count_by_place(a: Seq<char>, b: Seq<char>)
    ensures
        b.len() == 0 ==> digits_value(b) == 0,
        b.len() == 1 && '0' <= b[0] <= '9' ==> digits_value(b) == b[0] as int - '0' as int,
        digits_value(a + b) == digits_value(a) * pow(10, b.len()) + digits_value(b),
    decreases b.len(),
{
    vstd::arithmetic::power::lemma_pow0(10);
    if b.len() == 0 {
        assert(a + b == a);
    } else {
        if b.len() == 1 {
            assert(b.drop_last() == Seq::<char>::empty());
            assert(digits_value(b.drop_last()) == 0);
        }
        digits_count_by_place(a, b.drop_last());
        assert((a + b).drop_last() == a + b.drop_last());
        assert((a + b).last() == b.last());
        reveal(pow);
        let p = pow(10, (b.len() - 1) as nat);
        assert(pow(10, b.len()) == 10 * p);
        let v = digits_value(a) as int;
        assert(10 * (v * p) == v * (10 * p)) by (nonlinear_arith);
    }
}

/// A text is read as a number exactly where it holds decimal digits and nothing
/// else, at least one of them, behind an optional plus sign, and the number is
/// not too large.
pub proof fn numbers_are_digits(s: Seq<char>, digits: Seq<char>, max: nat)
    requires
        s == digits || s == seq!['+'] + digits,
        digits.len() == 0 || digits[0] != '+',
    ensures
        number(s, max) is Some <==> {
            &&& digits.len() > 0
            &&& forall|i: int| 0 <= i < digits.len() ==> '0' <= #[trigger] digits[i] <= '9'
            &&& digits_value(digits) <= max
        },
        number(s, max) is Some ==> number(s, max) == Some(digits_value(digits)),
{
    if s == seq!['+'] + digits {
        assert(s.drop_first() == digits);
    }
}

/// A text that starts with two plus signs is no number.
pub proof fn one_sign_is_enough(s: Seq<char>, max: nat)
    requires
        s.len() >= 2,
        s[0] == '+',
        s[1] == '+',
    ensures
        number(s, max) is None,
{
    assert(s.drop_first()[0] == '+');
}

/// Decimal notation ends with the last digit of a number, behind the notation
/// of the number without that digit.
pub proof fn decimal_ends_with_the_last_digit(n: nat, d: nat)
    requires
        d < 10,
    ensures
        n == 0 ==> decimal(d) == seq![('0' as int + d) as char],
        n > 0 ==> decimal(10 * n + d) == decimal(n).push(('0' as int + d) as char),
{
    assert((10 * n + d) / 10 == n && (10 * n + d) % 10 == d);
}

/// A text that is there is there with all its characters.
pub proof fn optional_text_keeps_characters(text: Option<String>)
    ensures
        text_of_option(text) is Some <==> text is Some,
        text matches Some(text) ==> text_of_option(Some(text)) == Some(text@),
{
}

} // verus!
