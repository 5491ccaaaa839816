//! Identifiers of sixteen bytes and their text form, as the `uuid` crate writes and reads it.
use vstd::prelude::*;

verus! {

broadcast use vstd::string::group_string_axioms;

/// Why bytes or a text are not an identifier.
#[derive(Debug, Clone, Copy, PartialEq, Eq, Structural)]
pub enum UuidError {
    /// The number of bytes of the input.
    InvalidLength(usize),
    /// A character that has no place in an identifier, and the byte offset at which it stands.
    InvalidCharacter(char, usize),
    /// The number of groups that hyphens separate.
    InvalidGroups(usize),
    /// The number of a group, how many digits it has, and how many it should have.
    InvalidGroupLength(usize, usize, u8),
}

/// The lower-case hexadecimal digit of a number below sixteen.
pub open spec fn hex_char(d: nat) -> char {
    if d < 10 {
        ('0' as nat + d) as char
    } else {
        ('a' as nat + d - 10) as char
    }
}

/// The number that a hexadecimal digit of either case stands for.
pub open spec fn hex_value(c: char) -> Option<nat> {
    if '0' <= c <= '9' {
        Some((c as nat - '0' as nat) as nat)
    } else if 'a' <= c <= 'f' {
        Some((c as nat - 'a' as nat + 10) as nat)
    } else if 'A' <= c <= 'F' {
        Some((c as nat - 'A' as nat + 10) as nat)
    } else {
        None
    }
}

/// Bytes in hexadecimal, two lower-case digits each.
pub open spec fn hex_text(bytes: Seq<u8>) -> Seq<char> {
    Seq::new(
        2 * bytes.len(),
        |i: int|
            hex_char(
                if i % 2 == 0 {
                    bytes[i / 2] as nat / 16
                } else {
                    bytes[i / 2] as nat % 16
                },
            ),
    )
}

/// Puts hyphens between thirty-two digits, which leaves groups of 8, 4, 4, 4 and 12.
pub open spec fn hyphenate(digits: Seq<char>) -> Seq<char> {
    digits.subrange(0, 8).push('-') + digits.subrange(8, 12).push('-') + digits.subrange(
        12,
        16,
    ).push('-') + digits.subrange(16, 20).push('-') + digits.subrange(20, 32)
}

/// The text of an identifier: sixteen bytes in hexadecimal, in five groups.
pub open spec fn uuid_text(bytes: Seq<u8>) -> Seq<char> {
    hyphenate(hex_text(bytes))
}

/// Whether thirty-two hexadecimal digits of either case stand for sixteen bytes.
pub open spec fn digits_denote(digits: Seq<char>, bytes: Seq<u8>) -> bool {
    &&& digits.len() == 32
    &&& bytes.len() == 16
    &&& forall|i: int|
        #![trigger bytes[i]]
        0 <= i < 16 ==> {
            &&& hex_value(digits[2 * i]) is Some
            &&& hex_value(digits[2 * i + 1]) is Some
            &&& bytes[i] == 16 * hex_value(digits[2 * i])->0 + hex_value(digits[2 * i + 1])->0
        }
}

/// Whether a text of five hyphenated groups stands for sixteen bytes.
pub open spec fn groups_denote(s: Seq<char>, bytes: Seq<u8>) -> bool {
    exists|digits: Seq<char>| #[trigger] digits_denote(digits, bytes) && s == hyphenate(digits)
}

/// Whether a text stands for an identifier: plain digits, hyphenated groups, or hyphenated groups
/// behind `urn:uuid:`.
pub open spec fn denotes(s: Seq<char>, bytes: Seq<u8>) -> bool {
    ||| digits_denote(s, bytes)
    ||| groups_denote(s, bytes)
    ||| s.len() == 45 && s.take(9) == seq!['u', 'r', 'n', ':', 'u', 'u', 'i', 'd', ':']
        && groups_denote(s.skip(9), bytes)
}

/// The error with which `uuid::Uuid::parse_str` refuses a text.
pub uninterp spec fn uuid_parse_error(s: Seq<char>) -> UuidError;

/// The identifier that a text stands for.
pub open spec fn parsed_uuid(s: Seq<char>) -> Result<Seq<u8>, UuidError> {
    if exists|bytes: Seq<u8>| denotes(s, bytes) {
        Ok(choose|bytes: Seq<u8>| denotes(s, bytes))
    } else {
        Err(uuid_parse_error(s))
    }
}

/// Calls `uuid::Uuid::from_bytes` and writes the identifier with its `Display`. Trusted to refuse
/// any number of bytes but sixteen, with that number, and to write sixteen bytes in lower-case
/// hexadecimal in five groups that hyphens separate.
#[verifier::external_body]
pub(crate) fn format_uuid(bytes: &[u8]) -> (r: Result<String, UuidError>)
    ensures
        match r {
            Ok(s) => bytes@.len() == 16 && s@ == uuid_text(bytes@),
            Err(e) => bytes@.len() != 16 && e == UuidError::InvalidLength(bytes@.len() as usize),
        },
{
    match uuid::Uuid::from_bytes(bytes) {
        Ok(id) => Ok(id.to_string()),
        Err(uuid::ParseError::InvalidLength(n)) => Err(UuidError::InvalidLength(n)),
        Err(uuid::ParseError::InvalidCharacter(c, i)) => Err(UuidError::InvalidCharacter(c, i)),
        Err(uuid::ParseError::InvalidGroups(n)) => Err(UuidError::InvalidGroups(n)),
        Err(uuid::ParseError::InvalidGroupLength(g, n, l)) => Err(
            UuidError::InvalidGroupLength(g, n, l),
        ),
    }
}

/// Calls `uuid::Uuid::parse_str` and takes the bytes with `as_bytes`. Trusted to read exactly the
/// texts that stand for an identifier (plain digits, hyphenated groups, and hyphenated groups
/// behind `urn:uuid:`, in either case), to give the bytes that they stand for, and to refuse
/// every other text with an error that is a function of the text.
#[verifier::external_body]
pub(crate) fn parse_uuid(s: &str) -> (r: Result<Vec<u8>, UuidError>)
    ensures
        match r {
            Ok(bytes) => denotes(s@, bytes@),
            Err(e) => e == uuid_parse_error(s@) && forall|bytes: Seq<u8>| !denotes(s@, bytes),
        },
{
    match uuid::Uuid::parse_str(s) {
        Ok(id) => Ok(id.as_bytes().to_vec()),
        Err(uuid::ParseError::InvalidLength(n)) => Err(UuidError::InvalidLength(n)),
        Err(uuid::ParseError::InvalidCharacter(c, i)) => Err(UuidError::InvalidCharacter(c, i)),
        Err(uuid::ParseError::InvalidGroups(n)) => Err(UuidError::InvalidGroups(n)),
        Err(uuid::ParseError::InvalidGroupLength(g, n, l)) => Err(
            UuidError::InvalidGroupLength(g, n, l),
        ),
    }
}

/// A text stands for at most one identifier.
pub proof fn lemma_denotes_unique(s: Seq<char>, a: Seq<u8>, b: Seq<u8>)
    requires
        denotes(s, a),
        denotes(s, b),
    ensures
        a == b,
{
    assert forall|x: Seq<char>, y: Seq<char>|
        x.len() == 32 && y.len() == 32 && #[trigger] hyphenate(x) == #[trigger] hyphenate(
            y,
        ) implies x == y by {
        let h = hyphenate(x);
        assert(h.subrange(0, 8) == x.subrange(0, 8));
        assert(h.subrange(0, 8) == y.subrange(0, 8));
        assert forall|i: int| 0 <= i < 32 implies x[i] == y[i] by {
            let j: int = if i < 8 {
                i
            } else if i < 12 {
                i + 1
            } else if i < 16 {
                i + 2
            } else if i < 20 {
                i + 3
            } else {
                i + 4
            };
            assert(h[j] == x[i]);
            assert(h[j] == y[i]);
        }
    }
    assert forall|digits: Seq<char>, x: Seq<u8>, y: Seq<u8>|
        #[trigger] digits_denote(digits, x) && #[trigger] digits_denote(digits, y) implies x
        == y by {
        assert forall|i: int| 0 <= i < 16 implies x[i] == y[i] by {}
    }
}

/// The text of an identifier stands for it.
pub proof fn lemma_uuid_text_denotes(bytes: Seq<u8>)
    requires
        bytes.len() == 16,
    ensures
        denotes(uuid_text(bytes), bytes),
{
    let digits = hex_text(bytes);
    assert(digits_denote(digits, bytes)) by {
        assert forall|i: int| 0 <= i < 16 implies {
            &&& hex_value(digits[2 * i]) == Some(#[trigger] bytes[i] as nat / 16)
            &&& hex_value(digits[2 * i + 1]) == Some(bytes[i] as nat % 16)
        } by {
            assert((2 * i) / 2 == i);
            assert((2 * i + 1) / 2 == i);
        }
    }
}

/// Reading an identifier gives back what writing it wrote.
pub proof fn lemma_uuid_round_trip(bytes: Seq<u8>)
    requires
        bytes.len() == 16,
    ensures
        parsed_uuid(uuid_text(bytes)) == Ok::<Seq<u8>, UuidError>(bytes),
{
    let s = uuid_text(bytes);
    lemma_uuid_text_denotes(bytes);
    lemma_denotes_unique(s, bytes, choose|b: Seq<u8>| denotes(s, b));
}

} // verus!
