//! File paths as byte strings, with `/` between their components.
use std::sync::Arc;
use vstd::prelude::*;
use vstd::slice::slice_subrange;
use vstd::utf8::{decode_utf8, encode_utf8, valid_utf8};

verus! {

broadcast use vstd::string::group_string_axioms;

/// The byte that separates the components of a path.
pub open spec fn is_separator(b: u8) -> bool {
    b == 0x2f
}

/// What stands before a name in the path of a file in a directory: the directory and a separator.
pub open spec fn dir_prefix(dir: Seq<u8>) -> Seq<u8> {
    if dir.len() == 0 || is_separator(dir.last()) {
        dir
    } else {
        dir.push(0x2f)
    }
}

/// The path of `name` under the directory `dir`. A name that begins with a separator is a path of
/// its own and replaces `dir`.
pub open spec fn joined(dir: Seq<u8>, name: Seq<u8>) -> Seq<u8> {
    if name.len() > 0 && is_separator(name[0]) {
        name
    } else {
        dir_prefix(dir) + name
    }
}

/// What stands behind the last separator of a path.
pub open spec fn last_component(path: Seq<u8>) -> Seq<u8>
    decreases path.len(),
{
    if path.len() == 0 || is_separator(path.last()) {
        Seq::empty()
    } else {
        last_component(path.drop_last()).push(path.last())
    }
}

/// The name of the file at a path: its last component, where separators and `.` components at the
/// end do not count. The root, the current directory and a path that ends in `..` have none.
pub open spec fn file_name(path: Seq<u8>) -> Option<Seq<u8>>
    decreases path.len(),
{
    let name = last_component(path);
    if path.len() > 0 && is_separator(path.last()) {
        file_name(path.drop_last())
    } else if name == seq![0x2eu8] && path.len() > 1 {
        file_name(path.drop_last())
    } else if name.len() == 0 || name == seq![0x2eu8] || name == seq![0x2eu8, 0x2eu8] {
        None
    } else {
        Some(name)
    }
}

/// Whether a path leads to something below a directory.
pub open spec fn is_below(path: Seq<u8>, dir: Seq<u8>) -> bool {
    &&& path.len() > dir.len()
    &&& path.take(dir.len() as int) == dir
    &&& is_separator(path[dir.len() as int])
}

/// The text of a byte string that is valid UTF-8.
pub open spec fn utf8_text(bytes: Seq<u8>) -> Option<Seq<char>> {
    if valid_utf8(bytes) {
        Some(decode_utf8(bytes))
    } else {
        None
    }
}

/// Calls `std::str::from_utf8`. Trusted to accept exactly the bytes that are valid UTF-8 and to
/// give the text that they encode.
#[verifier::external_body]
pub(crate) fn str_from_utf8(bytes: &[u8]) -> (r: Option<&str>)
    ensures
        match r {
            Some(s) => utf8_text(bytes@) == Some(s@),
            None => utf8_text(bytes@) is None,
        },
{
    std::str::from_utf8(bytes).ok()
}

/// The path of a file or a directory. A clone shares the bytes.
#[derive(Debug, PartialEq, Eq)]
pub struct FilePath {
    bytes: Arc<Vec<u8>>,
}

impl View for FilePath {
    type V = Seq<u8>;

    closed spec fn view(&self) -> Seq<u8> {
        self.bytes@
    }
}

impl Clone for FilePath {
    fn clone(&self) -> (r: Self)
        ensures
            r == *self,
    {
        FilePath { bytes: self.bytes.clone() }
    }
}

impl FilePath {
    /// The path that consists of these bytes.
    pub fn new(bytes: Vec<u8>) -> (r: FilePath)
        ensures
            r@ == bytes@,
    {
        FilePath { bytes: Arc::new(bytes) }
    }

    /// The path that consists of the bytes of a text.
    pub fn from_text(text: &str) -> (r: FilePath)
        ensures
            r@ == encode_utf8(text@),
    {
        FilePath { bytes: Arc::new(text.as_bytes_vec()) }
    }

    /// The bytes of the path.
    pub fn as_bytes(&self) -> (r: &[u8])
        ensures
            r@ == self@,
    {
        self.bytes.as_slice()
    }

    /// The text of the path, where it is valid UTF-8.
    pub fn to_str(&self) -> (r: Option<&str>)
        ensures
            match r {
                Some(s) => utf8_text(self@) == Some(s@),
                None => utf8_text(self@) is None,
            },
    {
        str_from_utf8(self.bytes.as_slice())
    }

    /// The path of `name` under this directory.
    pub fn join(&self, name: &FilePath) -> (r: FilePath)
        ensures
            r@ == joined(self@, name@),
    {
        let name_bytes = name.as_bytes();
        if name_bytes.len() > 0 && name_bytes[0] == 0x2f {
            return name.clone();
        }
        let mut bytes: Vec<u8> = (*self.bytes).clone();
        assert(bytes@ == self@);
        if bytes.len() > 0 && bytes[bytes.len() - 1] != 0x2f {
            bytes.push(0x2f);
        }
        let ghost dir = bytes@;
        bytes.extend_from_slice(name_bytes);
        assert(bytes@ == dir + name@);
        FilePath::new(bytes)
    }

    /// The name of the file at this path.
    pub fn file_name(&self) -> (r: Option<&[u8]>)
        ensures
            match r {
                Some(name) => file_name(self@) == Some(name@),
                None => file_name(self@) is None,
            },
    {
        let bytes: &[u8] = self.as_bytes();
        let mut end: usize = bytes.len();
        assert(self@.take(end as int) == self@);
        loop
            invariant
                end <= bytes@.len(),
                bytes@ == self@,
                file_name(self@) == file_name(self@.take(end as int)),
            decreases end,
        {
            let ghost path = self@.take(end as int);
            if end > 0 && bytes[end - 1] == 0x2f {
                assert(path.drop_last() == self@.take(end - 1));
                end = end - 1;
            } else {
                let mut start: usize = end;
                assert(self@.subrange(end as int, end as int) == Seq::<u8>::empty());
                assert(last_component(path) == last_component(self@.take(start as int))
                    + self@.subrange(start as int, end as int));
                while start > 0 && bytes[start - 1] != 0x2f
                    invariant
                        start <= end <= bytes@.len(),
                        bytes@ == self@,
                        path == self@.take(end as int),
                        last_component(path) == last_component(self@.take(start as int))
                            + self@.subrange(start as int, end as int),
                    decreases start,
                {
                    let ghost shorter = self@.take(start as int);
                    assert(shorter.drop_last() == self@.take(start - 1));
                    start = start - 1;
                    assert(last_component(shorter) == last_component(self@.take(start as int)).push(
                        self@[start as int],
                    ));
                    assert(last_component(self@.take(start as int)).push(self@[start as int])
                        + self@.subrange(start + 1, end as int) == last_component(
                        self@.take(start as int),
                    ) + self@.subrange(start as int, end as int));
                }
                let name: &[u8] = slice_subrange(bytes, start, end);
                assert(last_component(self@.take(start as int)) == Seq::<u8>::empty());
                assert(last_component(path) == name@);
                let len: usize = name.len();
                if len == 1 && name[0] == 0x2e {
                    assert(name@ == seq![0x2eu8]);
                    if end == 1 {
                        return None;
                    }
                    assert(path.drop_last() == self@.take(end - 1));
                    end = end - 1;
                } else if len == 0 {
                    return None;
                } else if len == 2 && name[0] == 0x2e && name[1] == 0x2e {
                    assert(name@ == seq![0x2eu8, 0x2eu8]);
                    return None;
                } else {
                    return Some(name);
                }
            }
        }
    }
}

/// Whether a byte string can be the name of one file: a single component, and not `.` or `..`.
pub open spec fn is_component(name: Seq<u8>) -> bool {
    &&& name.len() > 0
    &&& forall|i: int| 0 <= i < name.len() ==> !is_separator(#[trigger] name[i])
    &&& name != seq![0x2eu8]
    &&& name != seq![0x2eu8, 0x2eu8]
}

proof fn lemma_last_component(head: Seq<u8>, name: Seq<u8>)
    requires
        head.len() == 0 || is_separator(head.last()),
        forall|i: int| 0 <= i < name.len() ==> !is_separator(#[trigger] name[i]),
    ensures
        last_component(head + name) == name,
    decreases name.len(),
{
    if name.len() == 0 {
        assert(head + name == head);
    } else {
        let shorter = name.drop_last();
        assert forall|i: int| 0 <= i < shorter.len() implies !is_separator(#[trigger] shorter[i]) by {
            assert(shorter[i] == name[i]);
        }
        lemma_last_component(head, shorter);
        assert((head + name).drop_last() == head + shorter);
        assert((head + name).last() == name[name.len() - 1]);
        assert(shorter.push(name.last()) == name);
    }
}

/// The file name of a path that was joined from a directory and a name is that name.
pub proof fn lemma_joined_file_name(dir: Seq<u8>, name: Seq<u8>)
    requires
        is_component(name),
    ensures
        file_name(joined(dir, name)) == Some(name),
{
    let head = dir_prefix(dir);
    assert(joined(dir, name) == head + name);
    lemma_last_component(head, name);
    assert((head + name).last() == name[name.len() - 1]);
}

} // verus!
