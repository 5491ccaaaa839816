//! Decimal numbers and separated fields in text.
use vstd::prelude::*;

verus! {

broadcast use vstd::string::group_string_axioms;

/// The character of a decimal digit.
pub open spec fn digit_char(d: nat) -> char {
    ('0' as nat + d) as char
}

/// Whether a character is a decimal digit.
pub open spec fn is_digit(c: char) -> bool {
    '0' <= c <= '9'
}

/// The number that a decimal digit stands for.
pub open spec fn digit_value(c: char) -> nat
    recommends
        is_digit(c),
{
    (c as nat - '0' as nat) as nat
}

/// A number in decimal, without leading zeros.
pub open spec fn decimal(n: nat) -> Seq<char>
    decreases n,
{
    if n < 10 {
        seq![digit_char(n)]
    } else {
        decimal(n / 10).push(digit_char(n % 10))
    }
}

/// Why a text is not a 64-bit number.
#[derive(Debug, Clone, Copy, PartialEq, Eq, Structural)]
pub enum ParseIntError {
    /// The text is empty.
    Empty,
    /// The text holds something that is not a decimal digit, or only a sign.
    InvalidDigit,
    /// The number does not fit in 64 bits.
    PosOverflow,
}

/// What reading the digits of `s` makes of the number `acc` that was read before them. The first
/// character that is no digit, or that makes the number too large, decides the error.
pub open spec fn parse_digits(s: Seq<char>, acc: nat) -> Result<nat, ParseIntError>
    decreases s.len(),
{
    if s.len() == 0 {
        Ok(acc)
    } else if !is_digit(s[0]) {
        Err(ParseIntError::InvalidDigit)
    } else if acc * 10 + digit_value(s[0]) > u64::MAX {
        Err(ParseIntError::PosOverflow)
    } else {
        parse_digits(s.skip(1), acc * 10 + digit_value(s[0]))
    }
}

/// The 64-bit number that a text stands for: an optional plus sign and at least one digit.
pub open spec fn parsed_u64(s: Seq<char>) -> Result<nat, ParseIntError> {
    let digits = if s.len() > 0 && s[0] == '+' {
        s.skip(1)
    } else {
        s
    };
    if s.len() == 0 {
        Err(ParseIntError::Empty)
    } else if digits.len() == 0 {
        Err(ParseIntError::InvalidDigit)
    } else {
        parse_digits(digits, 0)
    }
}

/// The text of a single digit.
fn digit_str(d: u64) -> (r: &'static str)
    requires
        d < 10,
    ensures
        r@ == seq![digit_char(d as nat)],
{
    proof {
        reveal_strlit("0");
        reveal_strlit("1");
        reveal_strlit("2");
        reveal_strlit("3");
        reveal_strlit("4");
        reveal_strlit("5");
        reveal_strlit("6");
        reveal_strlit("7");
        reveal_strlit("8");
        reveal_strlit("9");
    }
    match d {
        0 => "0",
        1 => "1",
        2 => "2",
        3 => "3",
        4 => "4",
        5 => "5",
        6 => "6",
        7 => "7",
        8 => "8",
        _ => "9",
    }
}

/// Writes a number in decimal.
pub fn decimal_string(n: u64) -> (r: String)
    ensures
        r@ == decimal(n as nat),
    decreases n,
{
    if n < 10 {
        String::from_str(digit_str(n))
    } else {
        let mut text = decimal_string(n / 10);
        text.append(digit_str(n % 10));
        assert(text@ == decimal(n as nat));
        text
    }
}

/// Reads a 64-bit number.
pub fn parse_u64(s: &str) -> (r: Result<u64, ParseIntError>)
    ensures
        match parsed_u64(s@) {
            Ok(n) => r matches Ok(v) && v == n,
            Err(e) => r == Err::<u64, ParseIntError>(e),
        },
{
    let len: usize = s.unicode_len();
    if len == 0 {
        return Err(ParseIntError::Empty);
    }
    let start: usize = if s.get_char(0) == '+' { 1 } else { 0 };
    if start == len {
        return Err(ParseIntError::InvalidDigit);
    }
    assert(s@.skip(0) == s@);
    let mut i: usize = start;
    let mut acc: u64 = 0;
    while i < len
        invariant
            start <= i <= len,
            len == s@.len(),
            parsed_u64(s@) == parse_digits(s@.skip(i as int), acc as nat),
        decreases len - i,
    {
        let c: char = s.get_char(i);
        assert(s@.skip(i as int).skip(1) == s@.skip(i + 1));
        if c < '0' || c > '9' {
            return Err(ParseIntError::InvalidDigit);
        }
        let d: u64 = c as u64 - '0' as u64;
        if acc > u64::MAX / 10 {
            return Err(ParseIntError::PosOverflow);
        }
        if acc * 10 > u64::MAX - d {
            return Err(ParseIntError::PosOverflow);
        }
        acc = acc * 10 + d;
        i = i + 1;
    }
    Ok(acc)
}

/// The fields of a text that `sep` separates: one more than it holds separators.
pub open spec fn split(s: Seq<char>, sep: char) -> Seq<Seq<char>>
    decreases s.len(),
{
    if s.len() == 0 {
        seq![Seq::empty()]
    } else if s.last() == sep {
        split(s.drop_last(), sep).push(Seq::empty())
    } else {
        let fields = split(s.drop_last(), sep);
        fields.drop_last().push(fields.last().push(s.last()))
    }
}

/// Splits a text into the fields that `sep` separates.
pub fn split_fields<'a>(s: &'a str, sep: char) -> (fields: Vec<&'a str>)
    ensures
        fields@.map_values(|f: &'a str| f@) == split(s@, sep),
{
    let len: usize = s.unicode_len();
    let mut fields: Vec<&'a str> = Vec::new();
    let mut start: usize = 0;
    let mut i: usize = 0;
    assert(s@.subrange(0, 0) == Seq::<char>::empty());
    assert(split(s@.take(0), sep) == seq![Seq::<char>::empty()]);
    assert(fields@.map_values(|f: &'a str| f@).push(s@.subrange(0, 0)) == seq![
        Seq::<char>::empty(),
    ]);
    while i < len
        invariant
            start <= i <= len,
            len == s@.len(),
            split(s@.take(i as int), sep) == fields@.map_values(|f: &'a str| f@).push(
                s@.subrange(start as int, i as int),
            ),
        decreases len - i,
    {
        let ghost done = fields@.map_values(|f: &'a str| f@);
        assert(s@.take(i + 1).drop_last() == s@.take(i as int));
        if s.get_char(i) == sep {
            let field = s.substring_char(start, i);
            fields.push(field);
            start = i + 1;
            assert(fields@.map_values(|f: &'a str| f@) == done.push(field@));
            assert(s@.subrange(start as int, i + 1) == Seq::<char>::empty());
        } else {
            assert(done.push(s@.subrange(start as int, i as int)).drop_last() == done);
            assert(s@.subrange(start as int, i as int).push(s@[i as int]) == s@.subrange(
                start as int,
                i + 1,
            ));
        }
        i = i + 1;
    }
    let ghost done = fields@.map_values(|f: &'a str| f@);
    let last = s.substring_char(start, len);
    fields.push(last);
    assert(s@.take(len as int) == s@);
    assert(fields@.map_values(|f: &'a str| f@) == done.push(last@));
    fields
}

/// A piece of text without a separator, put behind another text, goes on with that text's last
/// field.
pub proof fn lemma_split_extend(head: Seq<char>, field: Seq<char>, sep: char)
    requires
        !field.contains(sep),
    ensures
        split(head + field, sep) == split(head, sep).drop_last().push(
            split(head, sep).last() + field,
        ),
    decreases field.len(),
{
    lemma_split_nonempty(head, sep);
    if field.len() == 0 {
        assert(head + field == head);
        assert(split(head, sep).last() + field == split(head, sep).last());
        assert(split(head, sep).drop_last().push(split(head, sep).last()) == split(head, sep));
    } else {
        let shorter = field.drop_last();
        assert forall|i: int| 0 <= i < shorter.len() implies shorter[i] != sep by {
            assert(field.contains(field[i]));
        }
        lemma_split_extend(head, shorter, sep);
        assert((head + field).drop_last() == head + shorter);
        assert(field.contains(field.last()));
        let fields = split(head + shorter, sep);
        assert(fields.drop_last() == split(head, sep).drop_last());
        assert(fields.last().push(field.last()) == split(head, sep).last() + field);
    }
}

/// A text has at least one field.
pub proof fn lemma_split_nonempty(s: Seq<char>, sep: char)
    ensures
        split(s, sep).len() > 0,
    decreases s.len(),
{
    if s.len() > 0 {
        lemma_split_nonempty(s.drop_last(), sep);
    }
}

/// Reading what follows the text `a` goes on from the number that `a` gave.
proof fn lemma_parse_digits_concat(a: Seq<char>, b: Seq<char>, acc: nat)
    ensures
        parse_digits(a, acc) matches Ok(n) ==> parse_digits(a + b, acc) == parse_digits(b, n),
    decreases a.len(),
{
    if a.len() == 0 {
        assert(a + b == b);
    } else if is_digit(a[0]) && acc * 10 + digit_value(a[0]) <= u64::MAX {
        lemma_parse_digits_concat(a.skip(1), b, acc * 10 + digit_value(a[0]));
        assert((a + b).skip(1) == a.skip(1) + b);
    }
}

/// The decimal text of a number holds only digits, and at least one.
pub proof fn lemma_decimal_digits(n: nat)
    ensures
        decimal(n).len() > 0,
        forall|i: int| 0 <= i < decimal(n).len() ==> is_digit(#[trigger] decimal(n)[i]),
    decreases n,
{
    if n >= 10 {
        lemma_decimal_digits(n / 10);
    }
}

proof fn lemma_parse_decimal(n: nat)
    requires
        n <= u64::MAX,
    ensures
        parse_digits(decimal(n), 0) == Ok::<nat, ParseIntError>(n),
    decreases n,
{
    reveal_with_fuel(parse_digits, 2);
    if n >= 10 {
        lemma_parse_decimal(n / 10);
        let tail = seq![digit_char(n % 10)];
        lemma_parse_digits_concat(decimal(n / 10), tail, 0);
        assert(decimal(n / 10) + tail == decimal(n));
        assert(tail.skip(1) == Seq::<char>::empty());
    } else {
        assert(decimal(n).skip(1) == Seq::<char>::empty());
    }
}

proof fn lemma_parse_digits_bound(s: Seq<char>, acc: nat)
    requires
        acc <= u64::MAX,
    ensures
        parse_digits(s, acc) matches Ok(n) ==> n <= u64::MAX,
    decreases s.len(),
{
    if s.len() > 0 && is_digit(s[0]) && acc * 10 + digit_value(s[0]) <= u64::MAX {
        lemma_parse_digits_bound(s.skip(1), acc * 10 + digit_value(s[0]));
    }
}

/// A number that was read fits in 64 bits.
pub proof fn lemma_parsed_bound(s: Seq<char>)
    ensures
        parsed_u64(s) matches Ok(n) ==> n <= u64::MAX,
{
    lemma_parse_digits_bound(s, 0);
    lemma_parse_digits_bound(s.skip(1), 0);
}

/// Reading a 64-bit number gives back what writing it in decimal wrote.
pub proof fn lemma_decimal_round_trip(n: nat)
    requires
        n <= u64::MAX,
    ensures
        parsed_u64(decimal(n)) == Ok::<nat, ParseIntError>(n),
{
    lemma_decimal_digits(n);
    lemma_parse_decimal(n);
    assert(is_digit(decimal(n)[0]));
}

} // verus!
