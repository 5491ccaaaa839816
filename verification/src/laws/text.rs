//! Numbers in text, separated fields, messages and checksums.
use crate::checksum::{crc32_extended, crc32_ieee};
use crate::error::{corruption_text, Corruption};
use crate::text::{decimal, parse_digits, parsed_u64, split, ParseIntError};
use vstd::prelude::*;

verus! {

/// Whether a text holds nothing but decimal digits.
pub open spec fn all_digits(s: Seq<char>) -> bool {
    forall|i: int| 0 <= i < s.len() ==> '0' <= #[trigger] s[i] && s[i] <= '9'
}

/// The value of a text of decimal digits.
pub open spec fn value_of(s: Seq<char>) -> nat
    decreases s.len(),
{
    if s.len() == 0 {
        0
    } else {
        (10 * value_of(s.drop_last()) + (s.last() as int - 48)) as nat
    }
}

/// Whether a text is a number as it is written: digits, at least one, without leading zeros.
pub open spec fn is_number(s: Seq<char>, n: nat) -> bool {
    &&& s.len() > 0
    &&& all_digits(s)
    &&& value_of(s) == n
    &&& s.len() > 1 ==> s[0] != '0'
}

/// A number is written in digits that have its value, and without leading zeros.
pub proof fn lemma_decimal(n: nat)
    ensures
        is_number(decimal(n), n),
        n > 0 ==> decimal(n)[0] != '0',
    decreases n,
{
    let s = decimal(n);
    reveal_with_fuel(value_of, 2);
    if n < 10 {
        assert(s.drop_last() == Seq::<char>::empty());
    } else {
        lemma_decimal(n / 10);
        assert(s.drop_last() == decimal(n / 10));
        assert forall|i: int| 0 <= i < s.len() implies '0' <= #[trigger] s[i] && s[i] <= '9' by {
            if i < s.len() - 1 {
                assert(s[i] == decimal(n / 10)[i]);
            }
        }
        assert(s[0] == decimal(n / 10)[0]);
    }
}

/// Texts of numbers with the same value are the same.
pub proof fn lemma_number_unique(s: Seq<char>, t: Seq<char>, n: nat)
    requires
        is_number(s, n),
        is_number(t, n),
    ensures
        s == t,
    decreases s.len(),
{
    reveal_with_fuel(value_of, 2);
    if s.len() == 1 && t.len() == 1 {
        assert(s.drop_last().len() == 0 && t.drop_last().len() == 0);
        assert(s == t);
    } else {
        if s.len() > 1 {
            lemma_front(s);
        }
        if t.len() > 1 {
            lemma_front(t);
        }
        if s.len() == 1 {
            assert(s.drop_last().len() == 0);
            assert(n < 10);
            assert(false);
        } else if t.len() == 1 {
            assert(t.drop_last().len() == 0);
            assert(n < 10);
            assert(false);
        } else {
            assert(value_of(s.drop_last()) == value_of(t.drop_last()));
            lemma_number_unique(s.drop_last(), t.drop_last(), value_of(s.drop_last()));
            assert(s == s.drop_last().push(s.last()));
            assert(t == t.drop_last().push(t.last()));
        }
    }
}

/// A number of several digits without the last is a number, and not zero.
proof fn lemma_front(s: Seq<char>)
    requires
        s.len() > 1,
        all_digits(s),
        s[0] != '0',
    ensures
        is_number(s.drop_last(), value_of(s.drop_last())),
        value_of(s.drop_last()) > 0,
    decreases s.len(),
{
    reveal_with_fuel(value_of, 2);
    let front = s.drop_last();
    assert forall|i: int| 0 <= i < front.len() implies '0' <= #[trigger] front[i] && front[i]
        <= '9' by {
        assert(front[i] == s[i]);
    }
    assert(front[0] == s[0]);
    if front.len() > 1 {
        lemma_front(front);
    } else {
        assert(front.drop_last().len() == 0);
    }
}

/// What stands behind the sign of a number.
pub open spec fn unsigned(s: Seq<char>) -> Seq<char> {
    if s.len() > 0 && s[0] == '+' {
        s.skip(1)
    } else {
        s
    }
}

/// Whether a text can be read as a number of 64 bits: digits, at least one, maybe behind a plus.
pub open spec fn reads_as(s: Seq<char>, n: nat) -> bool {
    &&& unsigned(s).len() > 0
    &&& all_digits(unsigned(s))
    &&& value_of(unsigned(s)) == n
    &&& n <= 0xffff_ffff_ffff_ffff
}

/// Whether some digits at the front of a text are too large a number.
pub open spec fn overflows(s: Seq<char>) -> bool {
    exists|k: int|
        0 <= k <= s.len() && all_digits(#[trigger] s.take(k)) && value_of(s.take(k))
            > 0xffff_ffff_ffff_ffff
}

/// More digits make no smaller a number.
proof fn lemma_value_grows(s: Seq<char>, k: int, j: int)
    requires
        0 <= k <= j <= s.len(),
        all_digits(s.take(j)),
    ensures
        value_of(s.take(k)) <= value_of(s.take(j)),
        all_digits(s.take(k)),
    decreases j - k,
{
    assert forall|i: int| 0 <= i < k implies '0' <= #[trigger] s.take(k)[i] && s.take(k)[i]
        <= '9' by {
        assert(s.take(k)[i] == s.take(j)[i]);
    }
    if k < j {
        let front = s.take(j - 1);
        assert(s.take(j).drop_last() == front);
        assert forall|i: int| 0 <= i < j - 1 implies '0' <= #[trigger] front[i] && front[i]
            <= '9' by {
            assert(front[i] == s.take(j)[i]);
        }
        assert('0' <= s.take(j)[j - 1]);
        lemma_value_grows(s, k, j - 1);
    }
}

/// What reading digits gives, from a place on to which all went well.
proof fn lemma_scan(s: Seq<char>, k: int)
    requires
        0 <= k <= s.len(),
        all_digits(s.take(k)),
        value_of(s.take(k)) <= u64::MAX,
    ensures
        ({
            let r = parse_digits(s.skip(k), value_of(s.take(k)));
            &&& r is Ok <==> all_digits(s) && value_of(s) <= u64::MAX
            &&& r matches Ok(n) ==> n == value_of(s)
            &&& r == Err::<nat, ParseIntError>(ParseIntError::PosOverflow) <==> overflows(s)
            &&& r != Err::<nat, ParseIntError>(ParseIntError::Empty)
        }),
    decreases s.len() - k,
{
    let acc = value_of(s.take(k));
    assert(s.take(s.len() as int) == s);
    if k == s.len() {
        assert(s.skip(k).len() == 0);
        if overflows(s) {
            let j = choose|j: int|
                0 <= j <= s.len() && all_digits(#[trigger] s.take(j)) && value_of(s.take(j))
                    > 0xffff_ffff_ffff_ffff;
            lemma_value_grows(s, j, k);
        }
    } else {
        let c = s[k];
        assert(s.skip(k)[0] == c);
        assert(s.skip(k).skip(1) == s.skip(k + 1));
        let longer = s.take(k + 1);
        assert(longer.drop_last() == s.take(k));
        assert(longer.last() == c);
        if '0' <= c <= '9' {
            assert forall|i: int| 0 <= i < longer.len() implies '0' <= #[trigger] longer[i]
                && longer[i] <= '9' by {
                if i < k {
                    assert(longer[i] == s.take(k)[i]);
                }
            }
            assert(value_of(longer) == acc * 10 + (c as nat - '0' as nat));
            if value_of(longer) <= u64::MAX {
                lemma_scan(s, k + 1);
            } else {
                assert(overflows(s));
                if all_digits(s) {
                    lemma_value_grows(s, k + 1, s.len() as int);
                }
            }
        } else {
            if overflows(s) {
                let j = choose|j: int|
                    0 <= j <= s.len() && all_digits(#[trigger] s.take(j)) && value_of(s.take(j))
                        > 0xffff_ffff_ffff_ffff;
                if j > k {
                    assert(s.take(j)[k] == c);
                } else {
                    lemma_value_grows(s, j, k);
                }
            }
        }
    }
}

/// A text is read as a number exactly where it is one, with the value of its digits. An empty text,
/// a number that gets too large, and anything else each have an error of their own.
pub proof fn lemma_parsed_u64(s: Seq<char>)
    ensures
        forall|n: nat| #[trigger] reads_as(s, n) <==> parsed_u64(s) == Ok::<nat, ParseIntError>(n),
        parsed_u64(s) == Err::<nat, ParseIntError>(ParseIntError::Empty) <==> s.len() == 0,
        parsed_u64(s) == Err::<nat, ParseIntError>(ParseIntError::PosOverflow) <==> overflows(
            unsigned(s),
        ),
{
    let d = unsigned(s);
    assert(d.take(0) == Seq::<char>::empty());
    assert(d.skip(0) == d);
    lemma_scan(d, 0);
    assert(parsed_u64(s) is Ok ==> reads_as(s, parsed_u64(s)->Ok_0));
    if overflows(d) && d.len() == 0 {
        let j = choose|j: int|
            0 <= j <= d.len() && all_digits(#[trigger] d.take(j)) && value_of(d.take(j))
                > 0xffff_ffff_ffff_ffff;
        assert(d.take(j).len() == 0);
    }
}

/// Fields with a separator between them.
pub open spec fn put_together(fields: Seq<Seq<char>>, sep: char) -> Seq<char>
    decreases fields.len(),
{
    if fields.len() == 0 {
        Seq::empty()
    } else if fields.len() == 1 {
        fields[0]
    } else {
        put_together(fields.drop_last(), sep) + seq![sep] + fields.last()
    }
}

/// Splitting a text gives the fields that, put together again, are the text. No field holds the
/// separator.
pub proof fn lemma_split(s: Seq<char>, sep: char)
    ensures
        split(s, sep).len() > 0,
        put_together(split(s, sep), sep) == s,
        forall|i: int| 0 <= i < split(s, sep).len() ==> !(#[trigger] split(s, sep)[i]).contains(sep),
    decreases s.len(),
{
    let fields = split(s, sep);
    reveal_with_fuel(put_together, 2);
    if s.len() == 0 {
    } else {
        let front = split(s.drop_last(), sep);
        lemma_split(s.drop_last(), sep);
        assert(s == s.drop_last().push(s.last()));
        if s.last() == sep {
            assert(fields.drop_last() == front);
            assert(put_together(fields, sep) == s);
        } else {
            let n = front.len() - 1;
            assert(fields.drop_last() == front.drop_last());
            assert(fields[n] == front[n].push(s.last()));
            assert(!front[n].contains(sep));
            assert(!fields[n].contains(sep)) by {
                if fields[n].contains(sep) {
                    let i = choose|i: int| 0 <= i < fields[n].len() && fields[n][i] == sep;
                    assert(front[n][i] == sep);
                }
            }
            assert forall|i: int| 0 <= i < fields.len() implies !(#[trigger] fields[i]).contains(
                sep,
            ) by {
                if i < n {
                    assert(fields[i] == front[i]);
                }
            }
            assert(put_together(fields, sep) == s);
        }
    }
}

/// There is one way to put a text together from fields without separators.
pub proof fn lemma_split_unique(fields: Seq<Seq<char>>, sep: char)
    requires
        fields.len() > 0,
        forall|i: int| 0 <= i < fields.len() ==> !(#[trigger] fields[i]).contains(sep),
    ensures
        split(put_together(fields, sep), sep) == fields,
    decreases fields.len(),
{
    reveal_with_fuel(put_together, 2);
    let last = fields.last();
    let none = Seq::<char>::empty();
    if fields.len() == 1 {
        crate::text::lemma_split_extend(none, last, sep);
        assert(none + last == last);
        assert(split(none, sep) == seq![none]);
        assert(split(last, sep) == seq![last]);
        assert(fields == seq![last]);
    } else {
        let front = fields.drop_last();
        assert forall|i: int| 0 <= i < front.len() implies !(#[trigger] front[i]).contains(sep) by {
            assert(front[i] == fields[i]);
        }
        lemma_split_unique(front, sep);
        let head = put_together(front, sep) + seq![sep];
        assert(head.drop_last() == put_together(front, sep));
        assert(split(head, sep) == front.push(none));
        crate::text::lemma_split_extend(head, last, sep);
        assert(none + last == last);
        assert(front.push(none).drop_last() == front);
        assert(split(head + last, sep) == front.push(last));
        assert(front.push(last) == fields);
    }
}

/// The message about a corruption names what was found first and what was expected last, both as
/// numbers.
pub proof fn lemma_corruption_text(found_crc32: u32, expect_crc32: u32, found: u64, expect: u64)
    ensures
        exists|a: Seq<char>, b: Seq<char>|
            #![trigger is_number(a, found_crc32 as nat), is_number(b, expect_crc32 as nat)]
            is_number(a, found_crc32 as nat) && is_number(b, expect_crc32 as nat)
                && corruption_text(Corruption::Crc32(found_crc32, expect_crc32)) == seq![
                'c', 'r', 'c', '3', '2', ' ',
            ] + a + seq![',', ' ', 'e', 'x', 'p', 'e', 'c', 't', ' '] + b,
        exists|a: Seq<char>, b: Seq<char>|
            #![trigger is_number(a, found as nat), is_number(b, expect as nat)]
            is_number(a, found as nat) && is_number(b, expect as nat) && corruption_text(
                Corruption::Length(found, expect),
            ) == seq!['l', 'e', 'n', 'g', 't', 'h', ' '] + a + seq![
                ',', ' ', 'e', 'x', 'p', 'e', 'c', 't', ' ',
            ] + b,
{
    reveal_strlit("crc32 ");
    reveal_strlit("length ");
    reveal_strlit(", expect ");
    assert("crc32 "@ == seq!['c', 'r', 'c', '3', '2', ' ']);
    assert("length "@ == seq!['l', 'e', 'n', 'g', 't', 'h', ' ']);
    assert(", expect "@ == seq![',', ' ', 'e', 'x', 'p', 'e', 'c', 't', ' ']);
    lemma_decimal(found_crc32 as nat);
    lemma_decimal(expect_crc32 as nat);
    lemma_decimal(found as nat);
    lemma_decimal(expect as nat);
}

/// A register of 32 bits, shifted down by `n` bits and reduced by the IEEE polynomial.
pub open spec fn shifted(v: u32, n: nat) -> u32
    decreases n,
{
    if n == 0 {
        v
    } else {
        let w = shifted(v, (n - 1) as nat);
        (w >> 1) ^ (if w & 1 == 1 {
            0xedb8_8320
        } else {
            0u32
        })
    }
}

/// A checksum starts at zero, and goes on with each byte by eight shifts of its complement.
pub proof fn lemma_crc32(sum: u32, a: Seq<u8>, b: Seq<u8>, byte: u8)
    ensures
        crc32_ieee(Seq::empty()) == 0,
        crc32_ieee(a + b) == crc32_extended(crc32_ieee(a), b),
        crc32_extended(sum, Seq::empty()) == sum,
        crc32_extended(sum, seq![byte]) == !shifted(!sum ^ (byte as u32), 8),
        crc32_extended(sum, a + b) == crc32_extended(crc32_extended(sum, a), b),
{
    crate::checksum::lemma_crc32_concat(0, a, b);
    crate::checksum::lemma_crc32_concat(sum, a, b);
    reveal_with_fuel(crc32_extended, 2);
    reveal_with_fuel(shifted, 9);
    assert(seq![byte].drop_last() == Seq::<u8>::empty());
    assert forall|w: u32| #[trigger] (w >> 1) ^ 0u32 == w >> 1 by {
        assert((w >> 1) ^ 0u32 == w >> 1) by (bit_vector);
    }
}

} // verus!
