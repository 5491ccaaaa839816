//! Paths: where a joined path leads, which name a path ends in, where the files of an import are.
use crate::import_dir::{are_paths, is_import_dir, ImportDir};
use crate::import_file::ImportPath;
use crate::path::{file_name, joined, last_component, utf8_text, FilePath};
use vstd::prelude::*;
use vstd::utf8::{
    decode_utf8_encode_utf8, encode_utf8, encode_utf8_decode_utf8, encode_utf8_valid_utf8,
    is_ascii_chars, is_ascii_chars_encode_utf8,
};

verus! {

/// Whether a path is made of exactly the bytes of a directory, a slash where the directory has none
/// at its end, and exactly the bytes of a name.
pub open spec fn sits_in(path: Seq<u8>, dir: Seq<u8>, name: Seq<u8>) -> bool {
    if dir.len() == 0 || dir[dir.len() - 1] == 0x2f {
        &&& path.len() == dir.len() + name.len()
        &&& path.take(dir.len() as int) == dir
        &&& path.skip(dir.len() as int) == name
    } else {
        &&& path.len() == dir.len() + 1 + name.len()
        &&& path.take(dir.len() as int) == dir
        &&& path[dir.len() as int] == 0x2f
        &&& path.skip(dir.len() as int + 1) == name
    }
}

/// A relative name joined to a directory leads into it; one that begins with a slash stands alone.
pub proof fn lemma_joined(dir: Seq<u8>, name: Seq<u8>)
    ensures
        name.len() == 0 || name[0] != 0x2f ==> sits_in(joined(dir, name), dir, name),
        name.len() > 0 && name[0] == 0x2f ==> joined(dir, name) == name,
{
    let path = joined(dir, name);
    if name.len() == 0 || name[0] != 0x2f {
        assert(path.take(dir.len() as int) == dir);
        if dir.len() == 0 || dir[dir.len() - 1] == 0x2f {
            assert(path.skip(dir.len() as int) == name);
        } else {
            assert(path.skip(dir.len() as int + 1) == name);
        }
    }
}

/// A directory and a name make one path.
proof fn lemma_sits_in_unique(a: Seq<u8>, b: Seq<u8>, dir: Seq<u8>, name: Seq<u8>)
    requires
        sits_in(a, dir, name),
        sits_in(b, dir, name),
    ensures
        a == b,
{
    let n = dir.len() as int;
    assert forall|i: int| 0 <= i < a.len() implies a[i] == b[i] by {
        if i < n {
            assert(a.take(n)[i] == b.take(n)[i]);
        } else if dir.len() == 0 || dir[dir.len() - 1] == 0x2f {
            assert(a.skip(n)[i - n] == b.skip(n)[i - n]);
        } else if i > n {
            assert(a.skip(n + 1)[i - n - 1] == b.skip(n + 1)[i - n - 1]);
        }
    }
    assert(a =~= b);
}

/// An import directory is its root with `.temp` and `.clone` in it.
pub proof fn lemma_import_dir(dir: ImportDir, root: FilePath)
    ensures
        is_import_dir(dir, root) <==> {
            &&& dir.root_dir == root
            &&& sits_in(dir.temp_dir@, root@, seq![0x2eu8, 0x74, 0x65, 0x6d, 0x70])
            &&& sits_in(dir.clone_dir@, root@, seq![0x2eu8, 0x63, 0x6c, 0x6f, 0x6e, 0x65])
        },
{
    reveal_strlit(".temp");
    reveal_strlit(".clone");
    let temp = seq![0x2eu8, 0x74, 0x65, 0x6d, 0x70];
    let clone = seq![0x2eu8, 0x63, 0x6c, 0x6f, 0x6e, 0x65];
    assert(is_ascii_chars(".temp"@));
    assert(is_ascii_chars(".clone"@));
    is_ascii_chars_encode_utf8(".temp"@);
    is_ascii_chars_encode_utf8(".clone"@);
    assert(encode_utf8(".temp"@) == temp);
    assert(encode_utf8(".clone"@) == clone);
    lemma_joined(root@, temp);
    lemma_joined(root@, clone);
    if sits_in(dir.temp_dir@, root@, temp) {
        lemma_sits_in_unique(dir.temp_dir@, joined(root@, temp), root@, temp);
    }
    if sits_in(dir.clone_dir@, root@, clone) {
        lemma_sits_in_unique(dir.clone_dir@, joined(root@, clone), root@, clone);
    }
}

/// The stages of a file sit in the three directories under its name.
pub proof fn lemma_are_paths(dir: ImportDir, name: Seq<u8>, path: ImportPath)
    requires
        name.len() == 0 || name[0] != 0x2f,
    ensures
        are_paths(dir, name, path) <==> {
            &&& sits_in(path.save@, dir.root_dir@, name)
            &&& sits_in(path.temp@, dir.temp_dir@, name)
            &&& sits_in(path.clone@, dir.clone_dir@, name)
        },
{
    lemma_joined(dir.root_dir@, name);
    lemma_joined(dir.temp_dir@, name);
    lemma_joined(dir.clone_dir@, name);
    if sits_in(path.save@, dir.root_dir@, name) {
        lemma_sits_in_unique(path.save@, joined(dir.root_dir@, name), dir.root_dir@, name);
    }
    if sits_in(path.temp@, dir.temp_dir@, name) {
        lemma_sits_in_unique(path.temp@, joined(dir.temp_dir@, name), dir.temp_dir@, name);
    }
    if sits_in(path.clone@, dir.clone_dir@, name) {
        lemma_sits_in_unique(path.clone@, joined(dir.clone_dir@, name), dir.clone_dir@, name);
    }
}

/// All paths of an import directory begin with the bytes of its root, and end in the name.
pub proof fn lemma_under_root(dir: ImportDir, root: FilePath, name: Seq<u8>, path: ImportPath)
    requires
        is_import_dir(dir, root),
        name.len() == 0 || name[0] != 0x2f,
        are_paths(dir, name, path),
    ensures
        dir.temp_dir@.take(root@.len() as int) == root@,
        dir.clone_dir@.take(root@.len() as int) == root@,
        path.save@.take(root@.len() as int) == root@,
        path.temp@.take(root@.len() as int) == root@,
        path.clone@.take(root@.len() as int) == root@,
        path.save@.skip(path.save@.len() - name.len()) == name,
        path.temp@.skip(path.temp@.len() - name.len()) == name,
        path.clone@.skip(path.clone@.len() - name.len()) == name,
{
    lemma_import_dir(dir, root);
    lemma_are_paths(dir, name, path);
    let n = root@.len() as int;
    assert(path.temp@.take(n) == path.temp@.take(dir.temp_dir@.len() as int).take(n));
    assert(path.clone@.take(n) == path.clone@.take(dir.clone_dir@.len() as int).take(n));
}

/// Whether bytes can be the name of a file: something, without a slash, and neither `.` nor `..`.
pub open spec fn is_plain(name: Seq<u8>) -> bool {
    &&& name.len() > 0
    &&& forall|i: int| 0 <= i < name.len() ==> #[trigger] name[i] != 0x2f
    &&& !(name.len() == 1 && name[0] == 0x2e)
    &&& !(name.len() == 2 && name[0] == 0x2e && name[1] == 0x2e)
}

/// Whether bytes behind a name do not count: slashes, and single dots behind slashes.
pub open spec fn is_skipped(tail: Seq<u8>) -> bool {
    forall|i: int|
        0 <= i < tail.len() ==> #[trigger] tail[i] == 0x2f || (tail[i] == 0x2e && i > 0 && tail[i
            - 1] == 0x2f)
}

/// Whether a path is something that ends in a slash, or nothing, then a name, then what does not
/// count.
pub open spec fn is_made_of(path: Seq<u8>, head: Seq<u8>, name: Seq<u8>, tail: Seq<u8>) -> bool {
    &&& path == head + name + tail
    &&& head.len() == 0 || head[head.len() - 1] == 0x2f
    &&& is_plain(name)
    &&& is_skipped(tail)
}

/// The last component is the longest end of a path without a slash.
proof fn lemma_last(path: Seq<u8>)
    ensures
        last_component(path).len() <= path.len(),
        last_component(path) == path.skip(path.len() - last_component(path).len()),
        forall|i: int|
            0 <= i < last_component(path).len() ==> #[trigger] last_component(path)[i] != 0x2f,
        last_component(path).len() < path.len() ==> path[path.len() - last_component(path).len()
            - 1] == 0x2f,
    decreases path.len(),
{
    if path.len() > 0 && path.last() != 0x2f {
        lemma_last(path.drop_last());
        let front = last_component(path.drop_last());
        assert(last_component(path) == front.push(path.last()));
        assert(front.push(path.last()) =~= path.skip(path.len() - front.len() - 1));
    } else {
        assert(path.skip(path.len() as int) == Seq::<u8>::empty());
    }
}

proof fn lemma_file_name_found(path: Seq<u8>, name: Seq<u8>)
    requires
        file_name(path) == Some(name),
    ensures
        exists|head: Seq<u8>, tail: Seq<u8>| #[trigger] is_made_of(path, head, name, tail),
    decreases path.len(),
{
    let last = last_component(path);
    lemma_last(path);
    if path.len() > 0 && path.last() == 0x2f {
        let front = path.drop_last();
        lemma_file_name_found(front, name);
        let (head, tail) = choose|head: Seq<u8>, tail: Seq<u8>| #[trigger]
            is_made_of(front, head, name, tail);
        let longer = tail.push(0x2f);
        assert(path =~= front.push(path.last()));
        assert((head + name + tail).push(path.last()) =~= head + name + longer);
        assert forall|i: int| 0 <= i < longer.len() implies #[trigger] longer[i] == 0x2f || (
        longer[i] == 0x2e && i > 0 && longer[i - 1] == 0x2f) by {
            if i < tail.len() {
                assert(longer[i] == tail[i]);
            }
        }
        assert(is_made_of(path, head, name, longer));
    } else if last == seq![0x2eu8] && path.len() > 1 {
        let front = path.drop_last();
        assert(path.last() == last[0]);
        assert(front.last() == 0x2f);
        lemma_file_name_found(front, name);
        let (head, tail) = choose|head: Seq<u8>, tail: Seq<u8>| #[trigger]
            is_made_of(front, head, name, tail);
        if tail.len() == 0 {
            assert(front.last() == name[name.len() - 1]);
        }
        assert(tail[tail.len() - 1] == front.last());
        let longer = tail.push(0x2e);
        assert(path =~= front.push(path.last()));
        assert((head + name + tail).push(path.last()) =~= head + name + longer);
        assert forall|i: int| 0 <= i < longer.len() implies #[trigger] longer[i] == 0x2f || (
        longer[i] == 0x2e && i > 0 && longer[i - 1] == 0x2f) by {
            if i < tail.len() {
                assert(longer[i] == tail[i]);
            }
        }
        assert(is_made_of(path, head, name, longer));
    } else {
        let head = path.take(path.len() - last.len());
        let none = Seq::<u8>::empty();
        assert(path =~= head + name + none);
        assert(!(name.len() == 1 && name[0] == 0x2e)) by {
            if name.len() == 1 && name[0] == 0x2e {
                assert(name =~= seq![0x2eu8]);
            }
        }
        assert(!(name.len() == 2 && name[0] == 0x2e && name[1] == 0x2e)) by {
            if name.len() == 2 && name[0] == 0x2e && name[1] == 0x2e {
                assert(name =~= seq![0x2eu8, 0x2eu8]);
            }
        }
        assert(is_made_of(path, head, name, none));
    }
}

proof fn lemma_file_name_given(path: Seq<u8>, head: Seq<u8>, name: Seq<u8>, tail: Seq<u8>)
    requires
        is_made_of(path, head, name, tail),
    ensures
        file_name(path) == Some(name),
    decreases tail.len(),
{
    let last = last_component(path);
    lemma_last(path);
    if tail.len() == 0 {
        assert(path =~= head + name);
        assert(path.last() == name[name.len() - 1]);
        assert(last.len() == name.len()) by {
            if last.len() < name.len() {
                assert(path[path.len() - last.len() - 1] == name[name.len() - last.len() - 1]);
            }
            if last.len() > name.len() {
                assert(path[head.len() - 1] == 0x2f);
                assert(last[last.len() - name.len() - 1] == path[head.len() - 1]);
            }
        }
        assert(last =~= name);
    } else {
        let shorter = tail.drop_last();
        let front = path.drop_last();
        assert(front =~= head + name + shorter);
        assert forall|i: int| 0 <= i < shorter.len() implies #[trigger] shorter[i] == 0x2f || (
        shorter[i] == 0x2e && i > 0 && shorter[i - 1] == 0x2f) by {
            assert(shorter[i] == tail[i]);
        }
        lemma_file_name_given(front, head, name, shorter);
        let t = tail[tail.len() - 1];
        assert(path.last() == t);
        if t != 0x2f {
            assert(path[path.len() - 2] == tail[tail.len() - 2]);
            assert(last.len() == 1) by {
                if last.len() > 1 {
                    assert(last[last.len() - 2] == path[path.len() - 2]);
                }
                if last.len() == 0 {
                    assert(path[path.len() - 1] == 0x2f);
                }
            }
            assert(last =~= seq![0x2eu8]);
        }
    }
}

/// A path has a file name exactly where, apart from slashes and single dots at its end, its last
/// component can be one; and that component is the name.
pub proof fn lemma_file_name(path: Seq<u8>, name: Seq<u8>)
    ensures
        file_name(path) == Some(name) <==> exists|head: Seq<u8>, tail: Seq<u8>| #[trigger]
            is_made_of(path, head, name, tail),
{
    if file_name(path) == Some(name) {
        lemma_file_name_found(path, name);
    }
    if exists|head: Seq<u8>, tail: Seq<u8>| #[trigger] is_made_of(path, head, name, tail) {
        let (head, tail) = choose|head: Seq<u8>, tail: Seq<u8>| #[trigger]
            is_made_of(path, head, name, tail);
        lemma_file_name_given(path, head, name, tail);
    }
}

/// Bytes are read as text exactly where they encode it.
pub proof fn lemma_utf8_text(bytes: Seq<u8>, text: Seq<char>)
    ensures
        utf8_text(bytes) == Some(text) <==> bytes == encode_utf8(text),
{
    encode_utf8_valid_utf8(text);
    encode_utf8_decode_utf8(text);
    if utf8_text(bytes) == Some(text) {
        decode_utf8_encode_utf8(bytes);
    }
}

} // verus!
