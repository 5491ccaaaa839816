//! Metadata of an imported file, and the file name that carries its identity.
use crate::error::Error;
use crate::identity::{
    format_uuid, hex_text, lemma_uuid_round_trip, parse_uuid, parsed_uuid, uuid_text, UuidError,
};
use crate::path::{
    file_name, is_component, is_separator, joined, lemma_joined_file_name, str_from_utf8,
    utf8_text, FilePath,
};
use crate::text::{
    decimal, decimal_string, is_digit, lemma_decimal_digits, lemma_decimal_round_trip,
    lemma_parsed_bound, lemma_split_extend, parse_u64, parsed_u64, split, split_fields,
};
use vstd::prelude::*;
use vstd::utf8::{
    encode_utf8, encode_utf8_decode_utf8, encode_utf8_valid_utf8, is_ascii_chars,
    is_ascii_chars_encode_utf8,
};

verus! {

broadcast use vstd::string::group_string_axioms;

/// The version of a region's membership and of its range.
#[derive(Debug, Clone, Copy, PartialEq, Eq)]
pub struct RegionEpoch {
    pub conf_ver: u64,
    pub version: u64,
}

/// The metadata of a file to import.
#[derive(Debug, PartialEq, Eq)]
pub struct SSTMeta {
    /// The identifier of the file: sixteen bytes.
    pub uuid: Vec<u8>,
    /// The checksum that the file should have.
    pub crc32: u32,
    /// The length that the file should have.
    pub length: u64,
    /// The column family that the file is for.
    pub cf_name: String,
    /// The region that the file is for.
    pub region_id: u64,
    /// The epoch of that region.
    pub region_epoch: RegionEpoch,
}

/// The mathematical content of an `SSTMeta`.
#[verifier::ext_equal]
pub struct SSTMetaView {
    pub uuid: Seq<u8>,
    pub crc32: u32,
    pub length: u64,
    pub cf_name: Seq<char>,
    pub region_id: nat,
    pub conf_ver: nat,
    pub version: nat,
}

impl View for SSTMeta {
    type V = SSTMetaView;

    open spec fn view(&self) -> SSTMetaView {
        SSTMetaView {
            uuid: self.uuid@,
            crc32: self.crc32,
            length: self.length,
            cf_name: self.cf_name@,
            region_id: self.region_id as nat,
            conf_ver: self.region_epoch.conf_ver as nat,
            version: self.region_epoch.version as nat,
        }
    }
}

impl Clone for SSTMeta {
    fn clone(&self) -> (r: Self)
        ensures
            r@ == self@,
    {
        let r = SSTMeta {
            uuid: self.uuid.clone(),
            crc32: self.crc32,
            length: self.length,
            cf_name: self.cf_name.clone(),
            region_id: self.region_id,
            region_epoch: self.region_epoch,
        };
        assert(r@ =~= self@);
        r
    }
}

impl SSTMeta {
    /// Metadata in which nothing is set.
    pub fn new() -> (r: SSTMeta)
        ensures
            r@ == empty_meta(),
    {
        let r = SSTMeta {
            uuid: Vec::new(),
            crc32: 0,
            length: 0,
            cf_name: String::new(),
            region_id: 0,
            region_epoch: RegionEpoch { conf_ver: 0, version: 0 },
        };
        assert(r@ =~= empty_meta());
        r
    }
}

/// Metadata in which nothing is set.
pub open spec fn empty_meta() -> SSTMetaView {
    SSTMetaView {
        uuid: Seq::empty(),
        crc32: 0,
        length: 0,
        cf_name: Seq::empty(),
        region_id: 0,
        conf_ver: 0,
        version: 0,
    }
}

/// The part of the metadata that a file name carries.
pub open spec fn identity_of(meta: SSTMetaView) -> SSTMetaView {
    SSTMetaView {
        uuid: meta.uuid,
        region_id: meta.region_id,
        conf_ver: meta.conf_ver,
        version: meta.version,
        ..empty_meta()
    }
}

/// The end of every imported file's name.
pub open spec fn sst_suffix() -> Seq<char> {
    seq!['.', 's', 's', 't']
}

/// The name of an imported file: identifier, region, and the region's epoch.
pub open spec fn sst_file_name(meta: SSTMetaView) -> Seq<char> {
    uuid_text(meta.uuid) + seq!['_'] + decimal(meta.region_id) + seq!['_'] + decimal(meta.conf_ver)
        + seq!['_'] + decimal(meta.version) + sst_suffix()
}

/// The file name of metadata as a path. The identifier has to have sixteen bytes.
pub open spec fn sst_path<E>(meta: SSTMetaView) -> Result<Seq<u8>, Error<E>> {
    if meta.uuid.len() == 16 {
        Ok(encode_utf8(sst_file_name(meta)))
    } else {
        Err(Error::Uuid(UuidError::InvalidLength(meta.uuid.len() as usize)))
    }
}

/// Gives an imported file its name.
pub fn sst_meta_to_path<E>(meta: &SSTMeta) -> (r: Result<FilePath, Error<E>>)
    ensures
        match (r, sst_path::<E>(meta@)) {
            (Ok(path), Ok(bytes)) => path@ == bytes,
            (Err(e), Err(expected)) => e == expected,
            _ => false,
        },
{
    let mut name = match format_uuid(meta.uuid.as_slice()) {
        Ok(name) => name,
        Err(e) => return Err(Error::Uuid(e)),
    };
    proof {
        reveal_strlit("_");
        reveal_strlit(".sst");
        assert("_"@ == seq!['_']);
        assert(".sst"@ == sst_suffix());
    }
    name.append("_");
    name.append(decimal_string(meta.region_id).as_str());
    name.append("_");
    name.append(decimal_string(meta.region_epoch.conf_ver).as_str());
    name.append("_");
    name.append(decimal_string(meta.region_epoch.version).as_str());
    name.append(".sst");
    Ok(FilePath::from_text(name.as_str()))
}

/// Whether a name ends as an imported file's.
pub open spec fn has_suffix(name: Seq<char>) -> bool {
    name.len() >= 4 && name.skip(name.len() - 4) == sst_suffix()
}

/// A name without the suffix.
pub open spec fn without_suffix(name: Seq<char>) -> Seq<char>
    recommends
        has_suffix(name),
{
    name.take(name.len() - 4)
}

/// The metadata in four fields of a name, where the first has been read as an identifier.
pub open spec fn fields_meta<E>(
    uuid: Result<Seq<u8>, UuidError>,
    region_id: Seq<char>,
    conf_ver: Seq<char>,
    version: Seq<char>,
) -> Result<SSTMetaView, Error<E>> {
    match (uuid, parsed_u64(region_id), parsed_u64(conf_ver), parsed_u64(version)) {
        (Err(e), _, _, _) => Err(Error::Uuid(e)),
        (_, Err(e), _, _) => Err(Error::ParseInt(e)),
        (_, _, Err(e), _) => Err(Error::ParseInt(e)),
        (_, _, _, Err(e)) => Err(Error::ParseInt(e)),
        (Ok(uuid), Ok(region_id), Ok(conf_ver), Ok(version)) => Ok(
            SSTMetaView { uuid, region_id, conf_ver, version, ..empty_meta() },
        ),
    }
}

/// The metadata that a file name carries; none where the name is not an imported file's. In front
/// of the suffix stand the identifier, the region and the two numbers of its epoch, with underscores
/// between them.
pub open spec fn name_meta<E>(name: Seq<char>) -> Option<Result<SSTMetaView, Error<E>>> {
    let fields = split(without_suffix(name), '_');
    if has_suffix(name) && fields.len() == 4 {
        Some(fields_meta(parsed_uuid(fields[0]), fields[1], fields[2], fields[3]))
    } else {
        None
    }
}

/// The name of the file at a path, where it has one that is text.
pub open spec fn name_text(path: Seq<u8>) -> Option<Seq<char>> {
    match file_name(path) {
        Some(bytes) => utf8_text(bytes),
        None => None,
    }
}

/// The metadata that the file name at the end of a path carries.
pub open spec fn path_meta<E>(path: FilePath) -> Result<SSTMetaView, Error<E>> {
    match name_text(path@) {
        Some(name) => match name_meta::<E>(name) {
            Some(r) => r,
            None => Err(Error::InvalidSSTPath(path)),
        },
        None => Err(Error::InvalidSSTPath(path)),
    }
}

/// Whether the result of reading metadata is the expected one.
pub open spec fn meta_result<E>(
    r: Result<SSTMeta, Error<E>>,
    expected: Result<SSTMetaView, Error<E>>,
) -> bool {
    match (r, expected) {
        (Ok(meta), Ok(view)) => meta@ == view,
        (Err(e), Err(f)) => e == f,
        _ => false,
    }
}

/// The content of what reading an identifier gave.
pub open spec fn uuid_result(r: Result<Vec<u8>, UuidError>) -> Result<Seq<u8>, UuidError> {
    match r {
        Ok(bytes) => Ok(bytes@),
        Err(e) => Err(e),
    }
}

/// Puts metadata together from what was read as the identifier and from the three fields behind
/// it. The first field that is wrong decides the error.
pub fn meta_from_fields<E>(
    uuid: Result<Vec<u8>, UuidError>,
    region_id: &str,
    conf_ver: &str,
    version: &str,
) -> (r: Result<SSTMeta, Error<E>>)
    ensures
        meta_result(r, fields_meta(uuid_result(uuid), region_id@, conf_ver@, version@)),
{
    let mut meta = SSTMeta::new();
    meta.uuid = match uuid {
        Ok(bytes) => bytes,
        Err(e) => return Err(Error::Uuid(e)),
    };
    meta.region_id = match parse_u64(region_id) {
        Ok(n) => n,
        Err(e) => return Err(Error::ParseInt(e)),
    };
    meta.region_epoch.conf_ver = match parse_u64(conf_ver) {
        Ok(n) => n,
        Err(e) => return Err(Error::ParseInt(e)),
    };
    meta.region_epoch.version = match parse_u64(version) {
        Ok(n) => n,
        Err(e) => return Err(Error::ParseInt(e)),
    };
    Ok(meta)
}

/// Whether a name ends as an imported file's; `end` is its length.
fn ends_with_suffix(name: &str, end: usize) -> (r: bool)
    requires
        end == name@.len(),
    ensures
        r == has_suffix(name@),
{
    if end < 4 {
        return false;
    }
    let r: bool = name.get_char(end - 4) == '.' && name.get_char(end - 3) == 's' && name.get_char(
        end - 2,
    ) == 's' && name.get_char(end - 1) == 't';
    proof {
        let tail = name@.skip(end - 4);
        assert(tail[0] == name@[end - 4]);
        assert(tail[1] == name@[end - 3]);
        assert(tail[2] == name@[end - 2]);
        assert(tail[3] == name@[end - 1]);
        if r {
            assert(tail == sst_suffix());
        }
    }
    r
}

/// Reads the metadata that the file name at the end of a path carries.
pub fn path_to_sst_meta<E>(path: &FilePath) -> (r: Result<SSTMeta, Error<E>>)
    ensures
        meta_result(r, path_meta(*path)),
{
    let bytes = match path.file_name() {
        Some(bytes) => bytes,
        None => return Err(Error::InvalidSSTPath(path.clone())),
    };
    let name = match str_from_utf8(bytes) {
        Some(name) => name,
        None => return Err(Error::InvalidSSTPath(path.clone())),
    };
    let end: usize = name.unicode_len();
    if !ends_with_suffix(name, end) {
        return Err(Error::InvalidSSTPath(path.clone()));
    }
    let stem = name.substring_char(0, end - 4);
    assert(stem@ == without_suffix(name@));
    let fields = split_fields(stem, '_');
    let ghost texts = fields@.map_values(|f: &str| f@);
    assert(texts == split(stem@, '_'));
    if fields.len() != 4 {
        return Err(Error::InvalidSSTPath(path.clone()));
    }
    assert(texts[0] == fields@[0]@ && texts[1] == fields@[1]@ && texts[2] == fields@[2]@ && texts[3]
        == fields@[3]@);
    let uuid = parse_uuid(fields[0]);
    proof {
        if uuid is Ok {
            crate::identity::lemma_denotes_unique(
                fields@[0]@,
                uuid->Ok_0@,
                choose|b: Seq<u8>| crate::identity::denotes(fields@[0]@, b),
            );
        }
        assert(uuid_result(uuid) == parsed_uuid(fields@[0]@));
    }
    meta_from_fields(uuid, fields[1], fields[2], fields[3])
}

/// Whether metadata has an identifier of sixteen bytes, and numbers of 64 bits as an `SSTMeta` has.
pub open spec fn nameable(meta: SSTMetaView) -> bool {
    &&& meta.uuid.len() == 16
    &&& meta.region_id <= u64::MAX
    &&& meta.conf_ver <= u64::MAX
    &&& meta.version <= u64::MAX
}

/// The characters of the fields in a file name: no separator, no dot, and none but ASCII.
spec fn plain_char(c: char) -> bool {
    is_digit(c) || 'a' <= c <= 'f' || c == '-'
}

proof fn lemma_uuid_text_plain(bytes: Seq<u8>)
    requires
        bytes.len() == 16,
    ensures
        uuid_text(bytes).len() == 36,
        forall|i: int| 0 <= i < 36 ==> plain_char(#[trigger] uuid_text(bytes)[i]),
{
    let digits = hex_text(bytes);
    assert forall|i: int| 0 <= i < 32 implies plain_char(#[trigger] digits[i]) by {
        assert(0 <= i / 2 < 16);
    }
}

/// The fields of the name of an imported file, without the suffix.
proof fn lemma_name_fields(meta: SSTMetaView)
    requires
        nameable(meta),
    ensures
        ({
            let a = uuid_text(meta.uuid);
            let b = decimal(meta.region_id);
            let c = decimal(meta.conf_ver);
            let d = decimal(meta.version);
            split(a + seq!['_'] + b + seq!['_'] + c + seq!['_'] + d, '_') == seq![a, b, c, d]
        }),
{
    let a = uuid_text(meta.uuid);
    let b = decimal(meta.region_id);
    let c = decimal(meta.conf_ver);
    let d = decimal(meta.version);
    lemma_uuid_text_plain(meta.uuid);
    lemma_decimal_digits(meta.region_id);
    lemma_decimal_digits(meta.conf_ver);
    lemma_decimal_digits(meta.version);
    let none = Seq::<char>::empty();
    lemma_split_extend(none, a, '_');
    assert(none + a == a);
    assert(split(a, '_') == seq![a]);
    let s1 = a + seq!['_'];
    assert(s1.drop_last() == a);
    assert(split(s1, '_') == seq![a, none]);
    lemma_split_extend(s1, b, '_');
    assert(none + b == b);
    assert(split(s1 + b, '_') == seq![a, b]);
    let s2 = s1 + b + seq!['_'];
    assert(s2.drop_last() == s1 + b);
    assert(split(s2, '_') == seq![a, b, none]);
    lemma_split_extend(s2, c, '_');
    assert(none + c == c);
    assert(split(s2 + c, '_') == seq![a, b, c]);
    let s3 = s2 + c + seq!['_'];
    assert(s3.drop_last() == s2 + c);
    assert(split(s3, '_') == seq![a, b, c, none]);
    lemma_split_extend(s3, d, '_');
    assert(none + d == d);
    assert(split(s3 + d, '_') == seq![a, b, c, d]);
}

/// Reading a file name gives back the identity of the metadata that it was made from.
pub proof fn lemma_name_round_trip<E>(meta: SSTMetaView)
    requires
        nameable(meta),
    ensures
        name_meta::<E>(sst_file_name(meta)) == Some(Ok::<SSTMetaView, Error<E>>(identity_of(meta))),
{
    let name = sst_file_name(meta);
    let stem = uuid_text(meta.uuid) + seq!['_'] + decimal(meta.region_id) + seq!['_'] + decimal(
        meta.conf_ver,
    ) + seq!['_'] + decimal(meta.version);
    assert(name == stem + sst_suffix());
    assert(name.skip(name.len() - 4) == sst_suffix());
    assert(without_suffix(name) == stem);
    lemma_name_fields(meta);
    lemma_uuid_round_trip(meta.uuid);
    lemma_decimal_round_trip(meta.region_id);
    lemma_decimal_round_trip(meta.conf_ver);
    lemma_decimal_round_trip(meta.version);
}

/// What was read from a file name can be made a file name again, and is nothing but an identity.
pub proof fn lemma_read_nameable<E>(name: Seq<char>)
    ensures
        name_meta::<E>(name) matches Some(Ok(sst)) ==> nameable(sst) && identity_of(sst) == sst,
{
    let fields = split(without_suffix(name), '_');
    lemma_parsed_bound(fields[1]);
    lemma_parsed_bound(fields[2]);
    lemma_parsed_bound(fields[3]);
}

/// Files whose identities differ have different names.
pub proof fn lemma_names_differ(a: SSTMetaView, b: SSTMetaView)
    requires
        nameable(a),
        nameable(b),
        identity_of(a) != identity_of(b),
    ensures
        sst_file_name(a) != sst_file_name(b),
        encode_utf8(sst_file_name(a)) != encode_utf8(sst_file_name(b)),
{
    lemma_name_round_trip::<()>(a);
    lemma_name_round_trip::<()>(b);
    encode_utf8_decode_utf8(sst_file_name(a));
    encode_utf8_decode_utf8(sst_file_name(b));
}

/// The name of an imported file is a single path component, and neither hidden nor special.
pub proof fn lemma_name_component(meta: SSTMetaView)
    requires
        nameable(meta),
    ensures
        is_component(encode_utf8(sst_file_name(meta))),
        encode_utf8(sst_file_name(meta))[0] != 0x2e,
{
    let name = sst_file_name(meta);
    lemma_uuid_text_plain(meta.uuid);
    lemma_decimal_digits(meta.region_id);
    lemma_decimal_digits(meta.conf_ver);
    lemma_decimal_digits(meta.version);
    assert forall|i: int| 0 <= i < name.len() implies '-' <= #[trigger] name[i] <= 'z' && name[i]
        != '/' by {
        let a = uuid_text(meta.uuid) + seq!['_'];
        let b = a + decimal(meta.region_id) + seq!['_'];
        let c = b + decimal(meta.conf_ver) + seq!['_'];
        let d = c + decimal(meta.version);
        if i < 36 {
            assert(name[i] == uuid_text(meta.uuid)[i]);
        } else if i < a.len() {
        } else if i < b.len() - 1 {
            assert(name[i] == decimal(meta.region_id)[i - a.len()]);
        } else if i < b.len() {
        } else if i < c.len() - 1 {
            assert(name[i] == decimal(meta.conf_ver)[i - b.len()]);
        } else if i < c.len() {
        } else if i < d.len() {
            assert(name[i] == decimal(meta.version)[i - c.len()]);
        } else {
            assert(name[i] == sst_suffix()[i - d.len()]);
        }
    }
    assert(is_ascii_chars(name));
    is_ascii_chars_encode_utf8(name);
    let bytes = encode_utf8(name);
    assert forall|i: int| 0 <= i < bytes.len() implies !is_separator(#[trigger] bytes[i]) by {
        assert(bytes[i] == name[i] as u8);
    }
    assert(bytes[0] == name[0] as u8);
    assert(name[0] == uuid_text(meta.uuid)[0]);
}

/// A path in a directory, or alone, that ends in the name of an imported file gives back the
/// identity of the metadata that the name was made from.
pub proof fn lemma_path_round_trip<E>(dir: Seq<u8>, meta: SSTMetaView, path: FilePath)
    requires
        nameable(meta),
        path@ == encode_utf8(sst_file_name(meta)) || path@ == joined(
            dir,
            encode_utf8(sst_file_name(meta)),
        ),
    ensures
        path_meta::<E>(path) == Ok::<SSTMetaView, Error<E>>(identity_of(meta)),
{
    let name = encode_utf8(sst_file_name(meta));
    lemma_name_component(meta);
    lemma_joined_file_name(dir, name);
    lemma_joined_file_name(Seq::empty(), name);
    assert(joined(Seq::empty(), name) == name);
    encode_utf8_valid_utf8(sst_file_name(meta));
    encode_utf8_decode_utf8(sst_file_name(meta));
    lemma_name_round_trip::<E>(meta);
}

} // verus!
