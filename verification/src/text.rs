//! Text as sequences of characters: digits, white space, and strings put together.

use vstd::prelude::*;

verus! {

/// `String::push` appends the character to the end of the string.
pub assume_specification[ String::push ](s: &mut String, c: char)
    ensures
        final(s)@ == old(s)@.push(c),
;

/// The characters of a string.
pub fn chars_of(s: &str) -> (r: Vec<char>)
    ensures
        r@ == s@,
{
    let mut r: Vec<char> = Vec::new();
    for c in it: s.chars()
        invariant
            r@ == it.seq().take(it.index() as int),
            it.seq() == s@,
    {
        r.push(c);
    }
    r
}

/// The string that the characters of `chars` from `from` up to `to` make.
pub fn text_between(chars: &Vec<char>, from: usize, to: usize) -> (r: String)
    requires
        from <= to <= chars@.len(),
    ensures
        r@ == chars@.subrange(from as int, to as int),
{
    let mut r: String = String::new();
    let mut i: usize = from;
    while i < to
        invariant
            from <= i <= to <= chars@.len(),
            r@ == chars@.subrange(from as int, i as int),
        decreases to - i,
    {
        r.push(chars[i]);
        i += 1;
    }
    r
}

/// Whether two strings hold the same characters.
pub fn same_text(a: &str, b: &str) -> (r: bool)
    ensures
        r == (a@ == b@),
{
    let x: String = a.to_owned();
    let y: String = b.to_owned();
    x == y
}

/// The decimal digit `d`.
pub open spec fn digit_char(d: int) -> char {
    (48 + d) as char
}

/// The character is a decimal digit.
pub open spec fn is_digit(c: char) -> bool {
    48 <= c as u32 <= 57
}

/// The number that a decimal digit stands for.
pub open spec fn digit_value(c: char) -> int {
    c as u32 - 48
}

/// The decimal notation of a number, without leading zeros.
pub open spec fn decimal(n: nat) -> Seq<char>
    decreases n,
{
    if n < 10 {
        seq![digit_char(n as int)]
    } else {
        decimal(n / 10).push(digit_char((n % 10) as int))
    }
}

/// The number that a sequence of decimal digits stands for.
pub open spec fn decimal_value(s: Seq<char>) -> int
    decreases s.len(),
{
    if s.len() == 0 {
        0
    } else {
        decimal_value(s.drop_last()) * 10 + digit_value(s.last())
    }
}

/// All characters of the sequence are decimal digits.
pub open spec fn all_digits(s: Seq<char>) -> bool {
    forall|i: int| 0 <= i < s.len() ==> is_digit(#[trigger] s[i])
}

/// Reading the decimal notation of a number gives the number back.
pub proof fn lemma_decimal(n: nat)
    ensures
        decimal(n).len() >= 1,
        all_digits(decimal(n)),
        decimal_value(decimal(n)) == n,
        decimal(n).len() > 1 ==> decimal(n)[0] != '0',
        n < 10 ==> decimal(n).len() == 1,
        n < 100 ==> decimal(n).len() <= 2,
        n < 1000 ==> decimal(n).len() <= 3,
        n >= 1 ==> decimal(n)[0] != '0',
    decreases n,
{
    if n < 10 {
        let s = decimal(n);
        assert(s.drop_last() == Seq::<char>::empty());
        assert(decimal_value(s.drop_last()) == 0);
    } else {
        lemma_decimal(n / 10);
        let s = decimal(n);
        assert(s.drop_last() == decimal(n / 10));
    }
}

/// A digit is the one that stands for its value.
pub proof fn lemma_digit_char(c: char)
    requires
        is_digit(c),
    ensures
        digit_char(digit_value(c)) == c,
        0 <= digit_value(c) <= 9,
{
    let d = c as u32;
    assert(digit_value(c) + 48 == d);
    vstd::utf8::char_u32_cast(c, d);
}

/// Digits without a leading zero are the decimal notation of the number that they stand for.
pub proof fn lemma_digits_are_decimal(s: Seq<char>)
    requires
        s.len() >= 1,
        all_digits(s),
        s.len() > 1 ==> s[0] != '0',
    ensures
        decimal_value(s) >= 0,
        s[0] != '0' ==> decimal_value(s) >= 1,
        s == decimal(decimal_value(s) as nat),
    decreases s.len(),
{
    let t = s.drop_last();
    assert(is_digit(s.last()));
    assert(is_digit(s[0]));
    lemma_digit_char(s.last());
    if s.len() == 1 {
        assert(decimal_value(t) == 0);
        assert(s =~= decimal(decimal_value(s) as nat));
    } else {
        assert(t[0] == s[0]);
        assert forall|i: int| 0 <= i < t.len() implies is_digit(#[trigger] t[i]) by {
            assert(is_digit(s[i]));
        }
        lemma_digits_are_decimal(t);
        assert(s =~= t.push(s.last()));
        assert(decimal_value(s) == decimal_value(t) * 10 + digit_value(s.last()));
        assert((decimal_value(s) as nat) / 10 == decimal_value(t) as nat);
    }
}

/// Writes a number in decimal notation.
pub fn decimal_text(n: u64) -> (r: String)
    ensures
        r@ == decimal(n as nat),
    decreases n,
{
    let mut r: String = if n < 10 {
        String::new()
    } else {
        decimal_text(n / 10)
    };
    r.push((48 + (n % 10) as u8) as char);
    r
}

/// The decimal notation of a number that may be negative.
pub open spec fn signed_decimal(n: int) -> Seq<char> {
    if n < 0 {
        seq!['-'] + decimal((-n) as nat)
    } else {
        decimal(n as nat)
    }
}

/// Writes a number that may be negative in decimal notation.
pub fn signed_text(n: i32) -> (r: String)
    ensures
        r@ == signed_decimal(n as int),
{
    if n < 0 {
        let mut r: String = String::new();
        r.push('-');
        r.append(decimal_text((-(n as i64)) as u64).as_str());
        assert(r@ =~= signed_decimal(n as int));
        r
    } else {
        decimal_text(n as u64)
    }
}

/// Why a text is no unsigned integer.
#[derive(Debug, Clone, Copy, PartialEq, Eq, Structural)]
pub enum NumeralError {
    /// There is nothing to read.
    Empty,
    /// Something that is no digit stands among the digits.
    InvalidDigit,
    /// The number does not fit.
    Overflow,
}

/// How many digits the sequence begins with.
pub open spec fn digit_run(s: Seq<char>) -> int
    decreases s.len(),
{
    if s.len() > 0 && is_digit(s[0]) {
        1 + digit_run(s.drop_first())
    } else {
        0
    }
}

/// The number that a decimal numeral stands for, as unsigned integers are read: an optional
/// plus sign, then digits only, at least one, and no more than thirty-two bits hold. A number
/// that grows too large is noticed before a character behind it that is no digit.
pub open spec fn numeral_u32(s: Seq<char>) -> Result<u32, NumeralError> {
    let digits = if s.len() > 1 && s[0] == '+' {
        s.drop_first()
    } else {
        s
    };
    let run = digit_run(digits);
    if s.len() == 0 {
        Err(NumeralError::Empty)
    } else if decimal_value(digits.take(run)) > u32::MAX {
        Err(NumeralError::Overflow)
    } else if run < digits.len() {
        Err(NumeralError::InvalidDigit)
    } else {
        Ok(decimal_value(digits) as u32)
    }
}

/// The leading digits end where the first other character stands.
proof fn lemma_digit_run(s: Seq<char>, n: int)
    requires
        0 <= n <= s.len(),
        forall|i: int| 0 <= i < n ==> is_digit(#[trigger] s[i]),
    ensures
        n <= digit_run(s) <= s.len(),
        n < s.len() && !is_digit(s[n]) ==> digit_run(s) == n,
        forall|i: int| 0 <= i < digit_run(s) ==> is_digit(#[trigger] s[i]),
    decreases s.len(),
{
    if s.len() > 0 && is_digit(s[0]) {
        let t = s.drop_first();
        let m = if n > 0 { n - 1 } else { 0 };
        assert forall|i: int| 0 <= i < m implies is_digit(#[trigger] t[i]) by {
            assert(is_digit(s[i + 1]));
        }
        lemma_digit_run(t, m);
        assert forall|i: int| 0 <= i < digit_run(s) implies is_digit(#[trigger] s[i]) by {
            if i > 0 {
                assert(is_digit(t[i - 1]));
            }
        }
    }
}

/// More digits do not make a smaller number.
proof fn lemma_decimal_value_grows(s: Seq<char>, k: int)
    requires
        all_digits(s),
        0 <= k <= s.len(),
    ensures
        0 <= decimal_value(s.take(k)) <= decimal_value(s),
    decreases s.len(),
{
    if k < s.len() {
        assert(s.drop_last().take(k) == s.take(k));
        assert(is_digit(s.last()));
        assert forall|i: int| 0 <= i < s.len() - 1 implies is_digit(#[trigger] s.drop_last()[i]) by {
            assert(is_digit(s[i]));
        }
        lemma_decimal_value_grows(s.drop_last(), k);
    } else {
        assert(s.take(k) == s);
        if s.len() > 0 {
            assert(is_digit(s.last()));
            assert forall|i: int| 0 <= i < s.len() - 1 implies is_digit(
                #[trigger] s.drop_last()[i],
            ) by {
                assert(is_digit(s[i]));
            }
            assert(s.drop_last().take(s.len() - 1) == s.drop_last());
            lemma_decimal_value_grows(s.drop_last(), s.len() - 1);
        }
    }
}

/// Reads the characters from `from` up to `to` as an unsigned integer.
pub fn read_u32(chars: &Vec<char>, from: usize, to: usize) -> (r: Result<u32, NumeralError>)
    requires
        from <= to <= chars@.len(),
    ensures
        r == numeral_u32(chars@.subrange(from as int, to as int)),
{
    let ghost s = chars@.subrange(from as int, to as int);
    if from == to {
        return Err(NumeralError::Empty);
    }
    let mut i: usize = from;
    if to - from > 1 && chars[from] == '+' {
        i += 1;
    }
    let ghost digits = chars@.subrange(i as int, to as int);
    let ghost start = i;
    proof {
        if i > from {
            assert(digits == s.drop_first());
        }
        assert(digits == if s.len() > 1 && s[0] == '+' {
            s.drop_first()
        } else {
            s
        });
    }
    let mut value: u32 = 0;
    while i < to
        invariant
            start <= i <= to <= chars@.len(),
            s == chars@.subrange(from as int, to as int),
            s.len() > 0,
            digits == chars@.subrange(start as int, to as int),
            digits == if s.len() > 1 && s[0] == '+' {
                s.drop_first()
            } else {
                s
            },
            value == decimal_value(digits.take(i - start)),
            forall|k: int| 0 <= k < i - start ==> is_digit(#[trigger] digits[k]),
        decreases to - i,
    {
        let c: char = chars[i];
        assert(c == digits[i - start]);
        let u: u32 = c as u32;
        if u < 48 || u > 57 {
            proof {
                lemma_digit_run(digits, i - start);
            }
            return Err(NumeralError::InvalidDigit);
        }
        let d: u32 = u - 48;
        let ghost next = digits.take(i + 1 - start);
        assert(next.drop_last() == digits.take(i - start));
        assert(decimal_value(next) == value * 10 + d);
        if value > (u32::MAX - d) / 10 {
            proof {
                lemma_digit_run(digits, i + 1 - start);
                let run = digits.take(digit_run(digits));
                assert forall|k: int| 0 <= k < run.len() implies is_digit(#[trigger] run[k]) by {
                    assert(is_digit(digits[k]));
                }
                assert(run.take(i + 1 - start) == next);
                lemma_decimal_value_grows(run, i + 1 - start);
            }
            return Err(NumeralError::Overflow);
        }
        value = value * 10 + d;
        i += 1;
    }
    proof {
        lemma_digit_run(digits, digits.len() as int);
        assert(digits.take(digits.len() as int) == digits);
    }
    Ok(value)
}

/// The character is an ASCII letter or digit.
pub open spec fn is_alphanumeric(c: char) -> bool {
    ||| 'a' as u32 <= c as u32 <= 'z' as u32
    ||| 'A' as u32 <= c as u32 <= 'Z' as u32
    ||| '0' as u32 <= c as u32 <= '9' as u32
}

/// Tests a character for being an ASCII letter or digit.
pub fn ascii_alphanumeric(c: char) -> (r: bool)
    ensures
        r == is_alphanumeric(c),
{
    let u: u32 = c as u32;
    (97 <= u && u <= 122) || (65 <= u && u <= 90) || (48 <= u && u <= 57)
}

/// The character has the Unicode property `White_Space`.
pub open spec fn is_white_space(c: char) -> bool {
    let u = c as u32;
    ||| 0x09 <= u <= 0x0D
    ||| u == 0x20
    ||| u == 0x85
    ||| u == 0xA0
    ||| u == 0x1680
    ||| 0x2000 <= u <= 0x200A
    ||| u == 0x2028
    ||| u == 0x2029
    ||| u == 0x202F
    ||| u == 0x205F
    ||| u == 0x3000
}

/// The sequence without its leading white space.
pub open spec fn trimmed_start(s: Seq<char>) -> Seq<char>
    decreases s.len(),
{
    if s.len() > 0 && is_white_space(s[0]) {
        trimmed_start(s.drop_first())
    } else {
        s
    }
}

/// The sequence without its trailing white space.
pub open spec fn trimmed_end(s: Seq<char>) -> Seq<char>
    decreases s.len(),
{
    if s.len() > 0 && is_white_space(s.last()) {
        trimmed_end(s.drop_last())
    } else {
        s
    }
}

/// The sequence without leading and trailing white space.
pub open spec fn trimmed(s: Seq<char>) -> Seq<char> {
    trimmed_end(trimmed_start(s))
}

/// Tests a character for white space.
fn white_space(c: char) -> (r: bool)
    ensures
        r == is_white_space(c),
{
    let u: u32 = c as u32;
    (0x09 <= u && u <= 0x0D) || u == 0x20 || u == 0x85 || u == 0xA0 || u == 0x1680 || (0x2000 <= u
        && u <= 0x200A) || u == 0x2028 || u == 0x2029 || u == 0x202F || u == 0x205F || u == 0x3000
}

/// The string without leading and trailing white space.
pub fn trim(s: &str) -> (r: String)
    ensures
        r@ == trimmed(s@),
{
    let chars: Vec<char> = chars_of(s);
    let mut from: usize = 0;
    let mut to: usize = chars.len();
    assert(s@.skip(0) == s@);
    while from < chars.len() && white_space(chars[from])
        invariant
            chars@ == s@,
            from <= chars@.len(),
            trimmed_start(s@) == trimmed_start(s@.skip(from as int)),
        decreases chars@.len() - from,
    {
        assert(s@.skip(from as int).drop_first() == s@.skip(from + 1));
        from += 1;
    }
    let ghost t = s@.skip(from as int);
    assert(trimmed_start(s@) == t);
    assert(chars@.subrange(from as int, to as int) == t);
    while to > from && white_space(chars[to - 1])
        invariant
            from <= to <= chars@.len(),
            trimmed_end(t) == trimmed_end(chars@.subrange(from as int, to as int)),
        decreases to,
    {
        assert(chars@.subrange(from as int, to as int).drop_last() == chars@.subrange(
            from as int,
            to - 1,
        ));
        to -= 1;
    }
    text_between(&chars, from, to)
}

/// What the Unicode tables make in upper case of a text that is not all ASCII.
pub uninterp spec fn unicode_upper_case(s: Seq<char>) -> Seq<char>;

/// All characters of the sequence are ASCII.
pub open spec fn all_ascii(s: Seq<char>) -> bool {
    forall|i: int| 0 <= i < s.len() ==> #[trigger] s[i] as u32 <= 127
}

/// The text in upper case.
pub open spec fn upper_case(s: Seq<char>) -> Seq<char> {
    if all_ascii(s) {
        s.map_values(|c: char| ascii_upper(c))
    } else {
        unicode_upper_case(s)
    }
}

/// The upper case of an ASCII letter; any other character as it is.
pub open spec fn ascii_upper(c: char) -> char {
    if 'a' as u32 <= c as u32 <= 'z' as u32 {
        (c as u32 - 32) as char
    } else {
        c
    }
}

/// The lower case of an ASCII letter; any other character as it is.
pub open spec fn ascii_lower(c: char) -> char {
    if 'A' as u32 <= c as u32 <= 'Z' as u32 {
        (c as u32 + 32) as char
    } else {
        c
    }
}

/// The upper case of a letter is that of its lower case.
pub proof fn lemma_upper_of_lower(c: char)
    requires
        c as u32 <= 127,
    ensures
        ascii_lower(c) as u32 <= 127,
        ascii_upper(ascii_lower(c)) == ascii_upper(c),
        is_white_space(ascii_lower(c)) == is_white_space(c),
{
    if 'A' as u32 <= c as u32 <= 'Z' as u32 {
        vstd::utf8::char_u32_cast(c, c as u32);
    }
}

/// Calls `str::to_uppercase`, which maps a text by the Unicode tables: the result depends on
/// the text alone, and in a text of ASCII characters the letters `a` to `z` become `A` to `Z`
/// and nothing else changes. What the tables say of other characters is not stated.
#[verifier::external_body]
pub(crate) fn to_upper_case(s: &str) -> (r: String)
    ensures
        all_ascii(s@) ==> r@ == s@.map_values(|c: char| ascii_upper(c)),
        !all_ascii(s@) ==> r@ == unicode_upper_case(s@),
{
    s.to_uppercase()
}

/// The parts of a text between separators: one more than it has separators.
pub open spec fn split(s: Seq<char>, separator: char) -> Seq<Seq<char>>
    decreases s.len(),
{
    if s.len() == 0 {
        seq![seq![]]
    } else {
        let front = split(s.drop_last(), separator);
        if s.last() == separator {
            front.push(seq![])
        } else {
            front.drop_last().push(front.last().push(s.last()))
        }
    }
}

/// A text without separators is its own only part.
pub proof fn lemma_split_one(s: Seq<char>, separator: char)
    requires
        !s.contains(separator),
    ensures
        split(s, separator) == seq![s],
    decreases s.len(),
{
    if s.len() > 0 {
        let t = s.drop_last();
        assert(s[s.len() - 1] != separator);
        assert forall|i: int| 0 <= i < t.len() implies t[i] != separator by {
            assert(s[i] != separator);
        }
        lemma_split_one(t, separator);
        assert(t.push(s.last()) =~= s);
        assert(split(s, separator) =~= seq![s]);
    } else {
        assert(s =~= seq![]);
    }
}

/// The parts of two texts with a separator between them are those of the one and of the other.
pub proof fn lemma_split_join(a: Seq<char>, b: Seq<char>, separator: char)
    ensures
        split(a.push(separator) + b, separator) == split(a, separator) + split(b, separator),
        split(a, separator).len() >= 1,
    decreases a.len() + b.len(),
{
    let s = a.push(separator) + b;
    if a.len() > 0 {
        lemma_split_join(a.drop_last(), seq![], separator);
    }
    if b.len() == 0 {
        assert(s.drop_last() =~= a);
        assert(split(s, separator) =~= split(a, separator) + split(b, separator));
    } else {
        let t = b.drop_last();
        lemma_split_join(a, t, separator);
        assert(s.drop_last() =~= a.push(separator) + t);
        let front = split(s.drop_last(), separator);
        assert(split(t, separator).len() >= 1) by {
            if t.len() > 0 {
                lemma_split_join(t, seq![], separator);
            }
        }
        assert(front.last() == split(t, separator).last());
        assert(split(s, separator) =~= split(a, separator) + split(b, separator));
    }
}

/// What the parts of a split text hold.
pub open spec fn part_views(parts: Seq<Vec<char>>) -> Seq<Seq<char>> {
    parts.map_values(|p: Vec<char>| p@)
}

/// Splits a text at its separators.
pub fn split_chars(chars: &Vec<char>, separator: char) -> (r: Vec<Vec<char>>)
    ensures
        part_views(r@) == split(chars@, separator),
        r@.len() >= 1,
{
    let mut parts: Vec<Vec<char>> = Vec::new();
    let mut part: Vec<char> = Vec::new();
    let mut i: usize = 0;
    proof {
        assert(chars@.take(0) =~= seq![]);
        assert(part_views(parts@).push(part@) =~= seq![seq![]]);
    }
    while i < chars.len()
        invariant
            i <= chars@.len(),
            part_views(parts@).push(part@) == split(chars@.take(i as int), separator),
        decreases chars@.len() - i,
    {
        let c: char = chars[i];
        let ghost front = split(chars@.take(i as int), separator);
        assert(chars@.take(i + 1).drop_last() == chars@.take(i as int));
        if c == separator {
            parts.push(part);
            part = Vec::new();
            assert(part_views(parts@) =~= front);
        } else {
            part.push(c);
            assert(part_views(parts@) =~= front.drop_last());
        }
        i += 1;
    }
    assert(chars@.take(chars@.len() as int) == chars@);
    let ghost before = parts@;
    parts.push(part);
    assert(part_views(parts@) =~= part_views(before).push(part@));
    parts
}

/// How many bytes a character takes in UTF-8.
pub open spec fn utf8_width(c: char) -> nat {
    if c as u32 <= 0x7F {
        1
    } else if c as u32 <= 0x7FF {
        2
    } else if c as u32 <= 0xFFFF {
        3
    } else {
        4
    }
}

/// How many bytes a text takes in UTF-8.
pub open spec fn utf8_len(s: Seq<char>) -> nat
    decreases s.len(),
{
    if s.len() == 0 {
        0
    } else {
        utf8_len(s.drop_last()) + utf8_width(s.last())
    }
}

/// A text takes as many bytes as it has characters at least, and exactly as many where it is
/// all ASCII.
pub proof fn lemma_utf8_len(s: Seq<char>)
    ensures
        utf8_len(s) >= s.len(),
        all_ascii(s) ==> utf8_len(s) == s.len(),
    decreases s.len(),
{
    if s.len() > 0 {
        lemma_utf8_len(s.drop_last());
        if all_ascii(s) {
            assert(s[s.len() - 1] as u32 <= 127);
            assert forall|i: int| 0 <= i < s.drop_last().len() implies #[trigger] s.drop_last()[i]
                as u32 <= 127 by {
                assert(s[i] as u32 <= 127);
            }
        }
    }
}

/// Tests whether a text takes exactly `n` bytes in UTF-8.
pub fn takes_bytes(chars: &Vec<char>, n: usize) -> (r: bool)
    requires
        n < 0x1000_0000,
    ensures
        r == (utf8_len(chars@) == n),
{
    proof {
        lemma_utf8_len(chars@);
    }
    if chars.len() > n {
        return false;
    }
    let mut len: usize = 0;
    let mut i: usize = 0;
    while i < chars.len()
        invariant
            i <= chars@.len() <= n < 0x1000_0000,
            len == utf8_len(chars@.take(i as int)),
            len <= 4 * i,
        decreases chars@.len() - i,
    {
        let u: u32 = chars[i] as u32;
        assert(chars@.take(i + 1).drop_last() == chars@.take(i as int));
        len += if u <= 0x7F {
            1
        } else if u <= 0x7FF {
            2
        } else if u <= 0xFFFF {
            3
        } else {
            4
        };
        i += 1;
    }
    assert(chars@.take(chars@.len() as int) == chars@);
    len == n
}

/// Whether some characters are those of a text.
pub fn spells(chars: &Vec<char>, text: &str) -> (r: bool)
    ensures
        r == (chars@ == text@),
{
    let other: Vec<char> = chars_of(text);
    if chars.len() != other.len() {
        return false;
    }
    let mut i: usize = 0;
    while i < chars.len()
        invariant
            i <= chars@.len() == other@.len(),
            other@ == text@,
            forall|j: int| 0 <= j < i ==> chars@[j] == other@[j],
        decreases chars@.len() - i,
    {
        if chars[i] != other[i] {
            return false;
        }
        i += 1;
    }
    assert(chars@ == other@);
    true
}

/// Parts with a separator between each two of them.
pub open spec fn join(parts: Seq<Seq<char>>, separator: char) -> Seq<char>
    decreases parts.len(),
{
    if parts.len() == 0 {
        seq![]
    } else if parts.len() == 1 {
        parts[0]
    } else {
        join(parts.drop_last(), separator).push(separator) + parts.last()
    }
}

/// The parts of a text make it up again, and no separator is in any of them.
pub proof fn law_split_is_undone_by_join(s: Seq<char>, separator: char)
    ensures
        split(s, separator).len() >= 1,
        join(split(s, separator), separator) == s,
        forall|i: int, j: int|
            0 <= i < split(s, separator).len() && 0 <= j < split(s, separator)[i].len()
                ==> #[trigger] split(s, separator)[i][j] != separator,
    decreases s.len(),
{
    let parts = split(s, separator);
    if s.len() == 0 {
        assert(s =~= seq![]);
    } else {
        let t = s.drop_last();
        let front = split(t, separator);
        law_split_is_undone_by_join(t, separator);
        if s.last() == separator {
            assert(parts.drop_last() =~= front);
            assert(join(parts, separator) =~= s);
        } else {
            assert(parts.drop_last() =~= front.drop_last());
            assert(join(parts, separator) =~= join(front, separator).push(s.last()));
            assert(join(parts, separator) =~= s);
        }
        assert forall|i: int, j: int|
            0 <= i < parts.len() && 0 <= j < parts[i].len() implies #[trigger] parts[i][j]
            != separator by {
            if i < front.len() - 1 {
                assert(parts[i] == front[i]);
            } else if s.last() == separator {
                if i < front.len() {
                    assert(parts[i] == front[i]);
                }
            } else if j < front.last().len() {
                assert(parts[i][j] == front[front.len() - 1][j]);
            }
        }
    }
}

/// Trimming takes the white space off both ends of a text, and nothing else.
pub proof fn law_trim_takes_white_space(a: Seq<char>, t: Seq<char>, b: Seq<char>)
    requires
        forall|i: int|
            0 <= i < a.len() ==> #[trigger] a[i] == ' ' || a[i] == '\t' || a[i] == '\n' || a[i]
                == '\r',
        forall|i: int|
            0 <= i < b.len() ==> #[trigger] b[i] == ' ' || b[i] == '\t' || b[i] == '\n' || b[i]
                == '\r',
        t.len() > 0 ==> 33 <= t[0] as u32 <= 126 && 33 <= t.last() as u32 <= 126,
    ensures
        trimmed(a + t + b) == t,
    decreases a.len() + b.len(),
{
    let s = a + t + b;
    if a.len() > 0 {
        assert(is_white_space(a[0]));
        assert(s[0] == a[0]);
        assert(s.drop_first() =~= a.drop_first() + t + b);
        assert forall|i: int| 0 <= i < a.drop_first().len() implies #[trigger] a.drop_first()[i]
            == ' ' || a.drop_first()[i] == '\t' || a.drop_first()[i] == '\n' || a.drop_first()[i]
            == '\r' by {
            assert(a.drop_first()[i] == a[i + 1]);
        }
        law_trim_takes_white_space(a.drop_first(), t, b);
    } else if t.len() == 0 {
        assert(s =~= b);
        lemma_trim_blank(b);
        assert(t =~= seq![]);
    } else {
        assert(s =~= t + b);
        assert(s[0] == t[0]);
        assert(trimmed_start(s) == s);
        lemma_trim_end(t, b);
    }
}

/// Nothing is left of white space.
proof fn lemma_trim_blank(b: Seq<char>)
    requires
        forall|i: int|
            0 <= i < b.len() ==> #[trigger] b[i] == ' ' || b[i] == '\t' || b[i] == '\n' || b[i]
                == '\r',
    ensures
        trimmed_start(b) == Seq::<char>::empty(),
        trimmed(b) == Seq::<char>::empty(),
    decreases b.len(),
{
    if b.len() > 0 {
        assert(is_white_space(b[0]));
        let c = b.drop_first();
        assert forall|i: int| 0 <= i < c.len() implies #[trigger] c[i] == ' ' || c[i] == '\t' || c[i]
            == '\n' || c[i] == '\r' by {
            assert(c[i] == b[i + 1]);
        }
        lemma_trim_blank(c);
    } else {
        assert(b =~= seq![]);
    }
}

/// White space behind a text is taken off.
proof fn lemma_trim_end(t: Seq<char>, b: Seq<char>)
    requires
        t.len() > 0,
        33 <= t.last() as u32 <= 126,
        forall|i: int|
            0 <= i < b.len() ==> #[trigger] b[i] == ' ' || b[i] == '\t' || b[i] == '\n' || b[i]
                == '\r',
    ensures
        trimmed_end(t + b) == t,
    decreases b.len(),
{
    let s = t + b;
    if b.len() > 0 {
        assert(is_white_space(b[b.len() - 1]));
        assert(s.last() == b[b.len() - 1]);
        assert(s.drop_last() =~= t + b.drop_last());
        assert forall|i: int| 0 <= i < b.drop_last().len() implies #[trigger] b.drop_last()[i] == ' '
            || b.drop_last()[i] == '\t' || b.drop_last()[i] == '\n' || b.drop_last()[i]
            == '\r' by {
            assert(b.drop_last()[i] == b[i]);
        }
        lemma_trim_end(t, b.drop_last());
    } else {
        assert(s =~= t);
    }
}

/// The upper case of an ASCII text has a capital for each letter, at its place, and all else as it
/// was.
pub proof fn law_upper_case(s: Seq<char>, i: int)
    requires
        forall|j: int| 0 <= j < s.len() ==> #[trigger] s[j] as u32 <= 127,
        0 <= i < s.len(),
    ensures
        upper_case(s).len() == s.len(),
        97 <= s[i] as u32 <= 122 ==> upper_case(s)[i] as u32 == s[i] as u32 - 32,
        !(97 <= s[i] as u32 <= 122) ==> upper_case(s)[i] == s[i],
{
    assert(all_ascii(s));
}

/// The decimal notation of a number has its last digit last, and that of the rest in front.
pub proof fn law_decimal_digits(n: nat)
    ensures
        n < 10 ==> decimal(n).len() == 1,
        n >= 10 ==> decimal(n).drop_last() == decimal(n / 10),
        decimal(n).last() as u32 == 48 + n % 10,
{
    if n >= 10 {
        assert(decimal(n).drop_last() =~= decimal(n / 10));
    }
}

/// Digits, with or without a plus sign in front, are read as the number that they stand for, as far
/// as thirty-two bits hold it.
pub proof fn law_numerals_are_read(n: nat)
    ensures
        n <= u32::MAX ==> numeral_u32(decimal(n)) == Ok::<u32, NumeralError>(n as u32),
        n <= u32::MAX ==> numeral_u32(seq!['+'] + decimal(n)) == Ok::<u32, NumeralError>(n as u32),
        n > u32::MAX ==> numeral_u32(decimal(n)) == Err::<u32, NumeralError>(
            NumeralError::Overflow,
        ),
        numeral_u32(seq![]) == Err::<u32, NumeralError>(NumeralError::Empty),
{
    let d = decimal(n);
    lemma_decimal(n);
    lemma_digit_run_all(d);
    assert(is_digit(d[0]));
    assert(d.take(d.len() as int) =~= d);
    let signed = seq!['+'] + d;
    assert(signed.drop_first() =~= d);
}

/// A sequence of digits is one run.
proof fn lemma_digit_run_all(s: Seq<char>)
    requires
        all_digits(s),
    ensures
        digit_run(s) == s.len(),
    decreases s.len(),
{
    if s.len() > 0 {
        assert(is_digit(s[0]));
        let t = s.drop_first();
        assert forall|i: int| 0 <= i < t.len() implies is_digit(#[trigger] t[i]) by {
            assert(is_digit(s[i + 1]));
        }
        lemma_digit_run_all(t);
    }
}

/// White space is what Unicode takes for it, from the tabulator to the ideographic space, and a
/// letter or digit of ASCII never is.
pub proof fn law_white_space(c: char)
    ensures
        c == ' ' || c == '\t' || c == '\n' || c == '\r' || c as u32 == 0x0B || c as u32 == 0x0C || c
            as u32 == 0x85 || c as u32 == 0xA0 || c as u32 == 0x1680 || 0x2000 <= c as u32 <= 0x200A
            || c as u32 == 0x2028 || c as u32 == 0x2029 || c as u32 == 0x202F || c as u32 == 0x205F
            || c as u32 == 0x3000 ==> is_white_space(c),
        0x21 <= c as u32 <= 0x7E || 0xA1 <= c as u32 <= 0x167F || c as u32 > 0x3000
            ==> !is_white_space(c),
        48 <= c as u32 <= 57 || 65 <= c as u32 <= 90 || 97 <= c as u32 <= 122 <==> is_alphanumeric(
            c,
        ),
{
}

/// A text takes a byte in UTF-8 for each ASCII character, and two to four for any other.
pub proof fn law_utf8_len(s: Seq<char>, c: char)
    ensures
        utf8_len(seq![]) == 0,
        utf8_len(s.push(c)) == utf8_len(s) + if (c as u32) < 0x80 {
            1nat
        } else if (c as u32) < 0x800 {
            2nat
        } else if (c as u32) < 0x1_0000 {
            3nat
        } else {
            4nat
        },
{
    assert(s.push(c).drop_last() =~= s);
}

/// What is no digit behind digits makes a numeral invalid, unless it is too large already.
pub proof fn law_numerals_have_digits_only(n: nat, c: char, rest: Seq<char>)
    requires
        !(48 <= c as u32 <= 57),
    ensures
        n <= u32::MAX ==> numeral_u32(decimal(n) + seq![c] + rest) == Err::<u32, NumeralError>(
            NumeralError::InvalidDigit,
        ),
        n > u32::MAX ==> numeral_u32(decimal(n) + seq![c] + rest) == Err::<u32, NumeralError>(
            NumeralError::Overflow,
        ),
{
    let d = decimal(n);
    let s = d + seq![c] + rest;
    lemma_decimal(n);
    lemma_digit_run_stops(d, c, rest);
    assert(is_digit(d[0]));
    assert(s[0] == d[0]);
    assert(s.take(d.len() as int) =~= d);
}

/// A run of digits ends where something else stands.
proof fn lemma_digit_run_stops(d: Seq<char>, c: char, rest: Seq<char>)
    requires
        all_digits(d),
        !is_digit(c),
    ensures
        digit_run(d + seq![c] + rest) == d.len(),
    decreases d.len(),
{
    let s = d + seq![c] + rest;
    if d.len() > 0 {
        assert(is_digit(d[0]));
        let t = d.drop_first();
        assert forall|i: int| 0 <= i < t.len() implies is_digit(#[trigger] t[i]) by {
            assert(is_digit(d[i + 1]));
        }
        lemma_digit_run_stops(t, c, rest);
        assert(s.drop_first() =~= t + seq![c] + rest);
    } else {
        assert(s[0] == c);
    }
}

/// A negative number is written as a minus sign and the number without it.
pub proof fn law_signed_decimal(n: nat)
    ensures
        signed_decimal(n as int) == decimal(n),
        n > 0 ==> signed_decimal(-(n as int)) == seq!['-'] + decimal(n),
{
}

} // verus!
