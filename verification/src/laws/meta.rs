//! The names of imported files: which part of a name is what, and what is read from it.
use crate::error::Error;
use crate::identity::{
    denotes, digits_denote, groups_denote, hex_text, hex_value, hyphenate, lemma_denotes_unique,
    parsed_uuid, uuid_parse_error, uuid_text, UuidError,
};
use crate::laws::path::{is_made_of, lemma_file_name, lemma_utf8_text};
use crate::laws::text::{
    is_number, lemma_decimal, lemma_parsed_u64, lemma_split, lemma_split_unique, overflows,
    put_together, reads_as, unsigned,
};
use crate::meta::{
    empty_meta, fields_meta, has_suffix, identity_of, meta_result, name_meta, name_text, path_meta,
    sst_file_name, sst_path, uuid_result, without_suffix, SSTMeta, SSTMetaView,
};
use crate::path::{file_name, FilePath};
use crate::text::{decimal, parsed_u64, split, ParseIntError};
use vstd::prelude::*;
use vstd::utf8::encode_utf8;

verus! {

/// The content of metadata is what its fields hold.
pub proof fn lemma_meta_view(meta: SSTMeta)
    ensures
        meta@.uuid == meta.uuid@,
        meta@.crc32 == meta.crc32,
        meta@.length == meta.length,
        meta@.cf_name == meta.cf_name@,
        meta@.region_id == meta.region_id,
        meta@.conf_ver == meta.region_epoch.conf_ver,
        meta@.version == meta.region_epoch.version,
{
}

/// In metadata in which nothing is set, every number is zero, and there is neither an identifier nor
/// a column family.
pub proof fn lemma_empty_meta(meta: SSTMeta)
    ensures
        meta@ == empty_meta() <==> {
            &&& meta.uuid@.len() == 0
            &&& meta.crc32 == 0
            &&& meta.length == 0
            &&& meta.cf_name@.len() == 0
            &&& meta.region_id == 0
            &&& meta.region_epoch.conf_ver == 0
            &&& meta.region_epoch.version == 0
        },
{
    if meta.uuid@.len() == 0 && meta.cf_name@.len() == 0 {
        assert(meta.uuid@ =~= Seq::<u8>::empty());
        assert(meta.cf_name@ =~= Seq::<char>::empty());
    }
}

/// The identity of a file is its identifier, its region and the epoch, and nothing else.
pub proof fn lemma_identity(meta: SSTMetaView)
    ensures
        identity_of(meta).uuid == meta.uuid,
        identity_of(meta).region_id == meta.region_id,
        identity_of(meta).conf_ver == meta.conf_ver,
        identity_of(meta).version == meta.version,
        identity_of(meta).crc32 == 0,
        identity_of(meta).length == 0,
        identity_of(meta).cf_name.len() == 0,
{
}

/// Whether a character is the lower-case hexadecimal digit of a number.
pub open spec fn is_hex_digit(c: char, v: int) -> bool {
    ||| 0 <= v < 10 && c as int == 48 + v
    ||| 10 <= v < 16 && c as int == 87 + v
}

/// Where the digits of a byte stand in the text of an identifier.
pub open spec fn digit_at(i: int) -> int {
    2 * i + (if i < 4 {
        0int
    } else if i < 6 {
        1
    } else if i < 8 {
        2
    } else if i < 10 {
        3
    } else {
        4
    })
}

/// Whether a text is that of sixteen bytes: two lower-case digits for each, with hyphens behind the
/// fourth, sixth, eighth and tenth.
pub open spec fn is_uuid_text(s: Seq<char>, bytes: Seq<u8>) -> bool {
    &&& s.len() == 36
    &&& s[8] == '-' && s[13] == '-' && s[18] == '-' && s[23] == '-'
    &&& forall|i: int|
        #![trigger bytes[i]]
        0 <= i < 16 ==> is_hex_digit(s[digit_at(i)], bytes[i] as int / 16) && is_hex_digit(
            s[digit_at(i) + 1],
            bytes[i] as int % 16,
        )
}

/// An identifier is written in lower-case hexadecimal, in five groups.
pub proof fn lemma_uuid_text(bytes: Seq<u8>)
    requires
        bytes.len() == 16,
    ensures
        is_uuid_text(uuid_text(bytes), bytes),
{
    let s = uuid_text(bytes);
    let digits = hex_text(bytes);
    assert forall|i: int|
        #![trigger bytes[i]]
        0 <= i < 16 implies is_hex_digit(s[digit_at(i)], bytes[i] as int / 16) && is_hex_digit(
        s[digit_at(i) + 1],
        bytes[i] as int % 16,
    ) by {
        assert((2 * i) / 2 == i && (2 * i) % 2 == 0);
        assert((2 * i + 1) / 2 == i && (2 * i + 1) % 2 == 1);
        assert(s[digit_at(i)] == digits[2 * i]);
        assert(s[digit_at(i) + 1] == digits[2 * i + 1]);
    }
}

/// Four fields with underscores between them, and `.sst` behind them.
pub open spec fn file_text(
    id: Seq<char>,
    region_id: Seq<char>,
    conf_ver: Seq<char>,
    version: Seq<char>,
) -> Seq<char> {
    id + seq!['_'] + region_id + seq!['_'] + conf_ver + seq!['_'] + version + seq![
        '.', 's', 's', 't',
    ]
}

/// Whether a text is the name of a file with this identifier, region and epoch.
pub open spec fn is_file_text(
    s: Seq<char>,
    uuid: Seq<u8>,
    region_id: nat,
    conf_ver: nat,
    version: nat,
) -> bool {
    exists|u: Seq<char>, a: Seq<char>, b: Seq<char>, c: Seq<char>| #[trigger]
        file_text(u, a, b, c) == s && is_uuid_text(u, uuid) && is_number(a, region_id) && is_number(
            b,
            conf_ver,
        ) && is_number(c, version)
}

/// A file is named by its identifier, its region, and the two numbers of the region's epoch, in this
/// order. Without an identifier of sixteen bytes it has no name.
pub proof fn lemma_sst_path<E>(meta: SSTMeta)
    ensures
        match sst_path::<E>(meta@) {
            Ok(bytes) => meta.uuid@.len() == 16 && exists|text: Seq<char>| #[trigger]
                encode_utf8(text) == bytes && is_file_text(
                    text,
                    meta.uuid@,
                    meta.region_id as nat,
                    meta.region_epoch.conf_ver as nat,
                    meta.region_epoch.version as nat,
                ),
            Err(e) => meta.uuid@.len() != 16 && e == Error::<E>::Uuid(
                UuidError::InvalidLength(meta.uuid@.len() as usize),
            ),
        },
{
    if meta.uuid@.len() == 16 {
        lemma_file_text(meta@);
        assert(encode_utf8(sst_file_name(meta@)) == sst_path::<E>(meta@)->Ok_0);
    }
}

/// The name of a file has its fields in order.
pub proof fn lemma_file_text(meta: SSTMetaView)
    requires
        meta.uuid.len() == 16,
    ensures
        is_file_text(
            sst_file_name(meta),
            meta.uuid,
            meta.region_id,
            meta.conf_ver,
            meta.version,
        ),
{
    let u = uuid_text(meta.uuid);
    let a = decimal(meta.region_id);
    let b = decimal(meta.conf_ver);
    let c = decimal(meta.version);
    lemma_uuid_text(meta.uuid);
    lemma_decimal(meta.region_id);
    lemma_decimal(meta.conf_ver);
    lemma_decimal(meta.version);
    assert(file_text(u, a, b, c) =~= sst_file_name(meta));
}

/// Whether a text cannot be read as a number, and why.
pub open spec fn is_no_number(s: Seq<char>, e: ParseIntError) -> bool {
    &&& forall|n: nat| !#[trigger] reads_as(s, n)
    &&& match e {
        ParseIntError::Empty => s.len() == 0,
        ParseIntError::PosOverflow => overflows(unsigned(s)),
        ParseIntError::InvalidDigit => s.len() > 0 && !overflows(unsigned(s)),
    }
}

proof fn lemma_is_no_number(s: Seq<char>, e: ParseIntError)
    ensures
        is_no_number(s, e) <==> parsed_u64(s) == Err::<nat, ParseIntError>(e),
        (exists|n: nat| reads_as(s, n)) <==> parsed_u64(s) is Ok,
{
    lemma_parsed_u64(s);
    match parsed_u64(s) {
        Ok(n) => {
            assert(reads_as(s, n));
        },
        Err(ParseIntError::Empty) => {},
        Err(ParseIntError::InvalidDigit) => {},
        Err(ParseIntError::PosOverflow) => {},
    }
    match e {
        ParseIntError::Empty => {},
        ParseIntError::InvalidDigit => {},
        ParseIntError::PosOverflow => {},
    }
}

/// Metadata is put together from an identifier and three numbers: the region, the version of its
/// configuration, its version. The first of them that is wrong decides the error.
pub proof fn lemma_fields_meta<E>(
    uuid: Result<Seq<u8>, UuidError>,
    region_id: Seq<char>,
    conf_ver: Seq<char>,
    version: Seq<char>,
)
    ensures
        match fields_meta::<E>(uuid, region_id, conf_ver, version) {
            Ok(sst) => {
                &&& uuid == Ok::<Seq<u8>, UuidError>(sst.uuid)
                &&& reads_as(region_id, sst.region_id)
                &&& reads_as(conf_ver, sst.conf_ver)
                &&& reads_as(version, sst.version)
                &&& sst.crc32 == 0 && sst.length == 0 && sst.cf_name.len() == 0
            },
            Err(Error::Uuid(e)) => uuid == Err::<Seq<u8>, UuidError>(e),
            Err(Error::ParseInt(e)) => uuid is Ok && {
                ||| is_no_number(region_id, e)
                ||| (exists|n: nat| reads_as(region_id, n)) && is_no_number(conf_ver, e)
                ||| (exists|n: nat| reads_as(region_id, n)) && (exists|n: nat|
                    reads_as(conf_ver, n)) && is_no_number(version, e)
            },
            Err(_) => false,
        },
{
    lemma_parsed_u64(region_id);
    lemma_parsed_u64(conf_ver);
    lemma_parsed_u64(version);
    let r = fields_meta::<E>(uuid, region_id, conf_ver, version);
    match r {
        Ok(sst) => {
            assert(reads_as(region_id, sst.region_id));
            assert(reads_as(conf_ver, sst.conf_ver));
            assert(reads_as(version, sst.version));
        },
        Err(Error::ParseInt(e)) => {
            lemma_is_no_number(region_id, e);
            lemma_is_no_number(conf_ver, e);
            lemma_is_no_number(version, e);
        },
        _ => {},
    }
}

/// A name with four fields in front of the suffix is read field by field: the first is the
/// identifier, then come the region, the version of its configuration, and its version.
pub proof fn lemma_name_meta<E>(
    id: Seq<char>,
    region_id: Seq<char>,
    conf_ver: Seq<char>,
    version: Seq<char>,
)
    requires
        !id.contains('_'),
        !region_id.contains('_'),
        !conf_ver.contains('_'),
        !version.contains('_'),
    ensures
        match name_meta::<E>(file_text(id, region_id, conf_ver, version)) {
            Some(Ok(sst)) => {
                &&& denotes(id, sst.uuid)
                &&& reads_as(region_id, sst.region_id)
                &&& reads_as(conf_ver, sst.conf_ver)
                &&& reads_as(version, sst.version)
                &&& sst.crc32 == 0 && sst.length == 0 && sst.cf_name.len() == 0
            },
            Some(Err(Error::Uuid(e))) => e == uuid_parse_error(id) && forall|b: Seq<u8>|
                !denotes(id, b),
            Some(Err(Error::ParseInt(e))) => (exists|b: Seq<u8>| denotes(id, b)) && {
                ||| is_no_number(region_id, e)
                ||| (exists|n: nat| reads_as(region_id, n)) && is_no_number(conf_ver, e)
                ||| (exists|n: nat| reads_as(region_id, n)) && (exists|n: nat|
                    reads_as(conf_ver, n)) && is_no_number(version, e)
            },
            _ => false,
        },
{
    let name = file_text(id, region_id, conf_ver, version);
    let stem = id + seq!['_'] + region_id + seq!['_'] + conf_ver + seq!['_'] + version;
    let fields = seq![id, region_id, conf_ver, version];
    assert(name.skip(name.len() - 4) =~= seq!['.', 's', 's', 't']);
    assert(has_suffix(name));
    assert(without_suffix(name) =~= stem);
    lemma_put_together(id, region_id, conf_ver, version);
    lemma_split_unique(fields, '_');
    lemma_fields_meta::<E>(parsed_uuid(id), region_id, conf_ver, version);
}

proof fn lemma_put_together(a: Seq<char>, b: Seq<char>, c: Seq<char>, d: Seq<char>)
    ensures
        put_together(seq![a, b, c, d], '_') == a + seq!['_'] + b + seq!['_'] + c + seq!['_'] + d,
{
    reveal_with_fuel(put_together, 5);
    assert(seq![a, b, c, d].drop_last() =~= seq![a, b, c]);
    assert(seq![a, b, c].drop_last() =~= seq![a, b]);
    assert(seq![a, b].drop_last() =~= seq![a]);
}

/// A name is an imported file's exactly where it has four fields in front of the suffix.
pub proof fn lemma_name_form<E>(name: Seq<char>)
    ensures
        name_meta::<E>(name) is Some <==> exists|
            a: Seq<char>,
            b: Seq<char>,
            c: Seq<char>,
            d: Seq<char>,
        | #[trigger]
            file_text(a, b, c, d) == name && !a.contains('_') && !b.contains('_') && !c.contains(
                '_',
            ) && !d.contains('_'),
{
    if name_meta::<E>(name) is Some {
        let stem = without_suffix(name);
        let fields = split(stem, '_');
        lemma_split(stem, '_');
        assert(fields =~= seq![fields[0], fields[1], fields[2], fields[3]]);
        lemma_put_together(fields[0], fields[1], fields[2], fields[3]);
        assert(name =~= stem + name.skip(name.len() - 4));
        assert(file_text(fields[0], fields[1], fields[2], fields[3]) =~= name);
    }
    if exists|a: Seq<char>, b: Seq<char>, c: Seq<char>, d: Seq<char>| #[trigger]
        file_text(a, b, c, d) == name && !a.contains('_') && !b.contains('_') && !c.contains('_')
            && !d.contains('_') {
        let (a, b, c, d) = choose|a: Seq<char>, b: Seq<char>, c: Seq<char>, d: Seq<char>| #[trigger]
            file_text(a, b, c, d) == name && !a.contains('_') && !b.contains('_') && !c.contains(
                '_',
            ) && !d.contains('_');
        lemma_name_meta::<E>(a, b, c, d);
    }
}

/// A path is read by the text of its file name; without one, or where the name is not an imported
/// file's, the path itself is the error.
pub proof fn lemma_path_meta<E>(path: FilePath)
    ensures
        forall|head: Seq<u8>, text: Seq<char>, tail: Seq<u8>|
            #[trigger] is_made_of(path@, head, encode_utf8(text), tail) ==> path_meta::<E>(path) == (
            match name_meta::<E>(text) {
                Some(r) => r,
                None => Err(Error::InvalidSSTPath(path)),
            }),
        (forall|head: Seq<u8>, text: Seq<char>, tail: Seq<u8>|
            !#[trigger] is_made_of(path@, head, encode_utf8(text), tail)) ==> path_meta::<E>(path)
            == Err::<SSTMetaView, Error<E>>(Error::InvalidSSTPath(path)),
{
    assert forall|head: Seq<u8>, text: Seq<char>, tail: Seq<u8>| #[trigger]
        is_made_of(path@, head, encode_utf8(text), tail) implies path_meta::<E>(path) == (
    match name_meta::<E>(text) {
        Some(r) => r,
        None => Err(Error::InvalidSSTPath(path)),
    }) by {
        lemma_file_name(path@, encode_utf8(text));
        lemma_utf8_text(encode_utf8(text), text);
        assert(name_text(path@) == Some(text));
    }
    if name_text(path@) is Some {
        let text = name_text(path@)->0;
        let bytes = file_name(path@)->0;
        lemma_file_name(path@, bytes);
        lemma_utf8_text(bytes, text);
        let (head, tail) = choose|head: Seq<u8>, tail: Seq<u8>| #[trigger]
            is_made_of(path@, head, bytes, tail);
        assert(is_made_of(path@, head, encode_utf8(text), tail));
    }
}

/// Reading metadata gives exactly the expected content, or exactly the expected error.
pub proof fn lemma_meta_result<E>(
    r: Result<SSTMeta, Error<E>>,
    expected: Result<SSTMetaView, Error<E>>,
)
    ensures
        meta_result(r, expected) <==> {
            &&& r is Ok <==> expected is Ok
            &&& r is Ok ==> r->Ok_0@ == expected->Ok_0
            &&& r is Err ==> r->Err_0 == expected->Err_0
        },
{
}

/// What was read as an identifier counts with its bytes, or with its error.
pub proof fn lemma_uuid_result(r: Result<Vec<u8>, UuidError>)
    ensures
        r is Ok <==> uuid_result(r) is Ok,
        r is Ok ==> uuid_result(r)->Ok_0 == r->Ok_0@,
        r is Err ==> uuid_result(r)->Err_0 == r->Err_0,
{
}

/// Whether a character is a hexadecimal digit, of either case, of a number.
pub open spec fn is_any_hex_digit(c: char, v: int) -> bool {
    ||| 0 <= v < 10 && c as int == 48 + v
    ||| 10 <= v < 16 && (c as int == 87 + v || c as int == 55 + v)
}

/// Whether a text is thirty-two digits of either case that make sixteen bytes, two for each.
pub open spec fn is_digit_run(s: Seq<char>, bytes: Seq<u8>) -> bool {
    &&& s.len() == 32
    &&& bytes.len() == 16
    &&& forall|i: int|
        #![trigger bytes[i]]
        0 <= i < 16 ==> is_any_hex_digit(s[2 * i], bytes[i] as int / 16) && is_any_hex_digit(
            s[2 * i + 1],
            bytes[i] as int % 16,
        )
}

/// Whether a text is such digits with hyphens behind the fourth, sixth, eighth and tenth byte.
pub open spec fn is_hyphenated(s: Seq<char>, bytes: Seq<u8>) -> bool {
    &&& s.len() == 36
    &&& bytes.len() == 16
    &&& s[8] == '-' && s[13] == '-' && s[18] == '-' && s[23] == '-'
    &&& forall|i: int|
        #![trigger bytes[i]]
        0 <= i < 16 ==> is_any_hex_digit(s[digit_at(i)], bytes[i] as int / 16) && is_any_hex_digit(
            s[digit_at(i) + 1],
            bytes[i] as int % 16,
        )
}

proof fn lemma_digit_run(s: Seq<char>, bytes: Seq<u8>)
    ensures
        digits_denote(s, bytes) <==> is_digit_run(s, bytes),
{
    if digits_denote(s, bytes) {
        assert forall|i: int|
            #![trigger bytes[i]]
            0 <= i < 16 implies is_any_hex_digit(s[2 * i], bytes[i] as int / 16)
            && is_any_hex_digit(s[2 * i + 1], bytes[i] as int % 16) by {
            let a = hex_value(s[2 * i])->0;
            let b = hex_value(s[2 * i + 1])->0;
            assert(bytes[i] == 16 * a + b);
            assert(a < 16 && b < 16);
            assert(bytes[i] as int / 16 == a && bytes[i] as int % 16 == b);
        }
        assert(is_digit_run(s, bytes));
    }
    if is_digit_run(s, bytes) {
        assert forall|i: int|
            #![trigger bytes[i]]
            0 <= i < 16 implies hex_value(s[2 * i]) is Some && hex_value(s[2 * i + 1]) is Some
            && bytes[i] == 16 * hex_value(s[2 * i])->0 + hex_value(s[2 * i + 1])->0 by {
            let a = bytes[i] as int / 16;
            let b = bytes[i] as int % 16;
            assert(bytes[i] as int == 16 * a + b);
            assert(is_any_hex_digit(s[2 * i], a) && is_any_hex_digit(s[2 * i + 1], b));
            assert(hex_value(s[2 * i]) == Some(a as nat));
            assert(hex_value(s[2 * i + 1]) == Some(b as nat));
        }
        assert forall|k: int| 0 <= k < 32 implies hex_value(#[trigger] s[k]) is Some by {
            let i = k / 2;
            assert(k == 2 * i || k == 2 * i + 1);
            assert(0 <= bytes[i] as int / 16 < 16);
        }
    }
}

proof fn lemma_hyphenated(s: Seq<char>, bytes: Seq<u8>)
    ensures
        groups_denote(s, bytes) <==> is_hyphenated(s, bytes),
{
    if groups_denote(s, bytes) {
        let digits = choose|digits: Seq<char>| #[trigger]
            digits_denote(digits, bytes) && s == hyphenate(digits);
        lemma_digit_run(digits, bytes);
        assert forall|i: int|
            #![trigger bytes[i]]
            0 <= i < 16 implies is_any_hex_digit(s[digit_at(i)], bytes[i] as int / 16)
            && is_any_hex_digit(s[digit_at(i) + 1], bytes[i] as int % 16) by {
            assert(s[digit_at(i)] == digits[2 * i]);
            assert(s[digit_at(i) + 1] == digits[2 * i + 1]);
        }
    }
    if is_hyphenated(s, bytes) {
        let digits = s.subrange(0, 8) + s.subrange(9, 13) + s.subrange(14, 18) + s.subrange(19, 23)
            + s.subrange(24, 36);
        assert forall|i: int|
            #![trigger bytes[i]]
            0 <= i < 16 implies is_any_hex_digit(digits[2 * i], bytes[i] as int / 16)
            && is_any_hex_digit(digits[2 * i + 1], bytes[i] as int % 16) by {
            assert(s[digit_at(i)] == digits[2 * i]);
            assert(s[digit_at(i) + 1] == digits[2 * i + 1]);
        }
        lemma_digit_run(digits, bytes);
        assert(hyphenate(digits) =~= s);
    }
}

/// The texts that stand for an identifier are its digits, of either case, in a row or in five
/// groups, the latter also behind `urn:uuid:`.
pub proof fn lemma_denotes(s: Seq<char>, bytes: Seq<u8>)
    ensures
        denotes(s, bytes) <==> {
            ||| is_digit_run(s, bytes)
            ||| is_hyphenated(s, bytes)
            ||| s.len() == 45 && s.take(9) == seq!['u', 'r', 'n', ':', 'u', 'u', 'i', 'd', ':']
                && is_hyphenated(s.skip(9), bytes)
        },
{
    lemma_digit_run(s, bytes);
    lemma_hyphenated(s, bytes);
    lemma_hyphenated(s.skip(9), bytes);
}

/// An identifier is read exactly from the texts that stand for it.
pub proof fn lemma_parsed_uuid(s: Seq<char>, bytes: Seq<u8>)
    ensures
        parsed_uuid(s) == Ok::<Seq<u8>, UuidError>(bytes) <==> denotes(s, bytes),
        parsed_uuid(s) matches Err(e) ==> e == uuid_parse_error(s),
{
    if denotes(s, bytes) {
        lemma_denotes_unique(s, bytes, choose|b: Seq<u8>| denotes(s, b));
    }
}

} // verus!
