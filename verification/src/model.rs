//! A model of a host that does what it is asked, and what each task brings about on it.
//!
//! The model keeps files and directories by their paths, and for each column family of the storage
//! engine the contents of the files that it took in. A handle is the path of the open file. Nothing
//! fails in it but what cannot be done: no file is removed or moved that is not there, none is
//! created where there is something, and the engine takes in what is there for a column family that
//! it has. What it makes of the contents is not part of the model, and neither are listings, which
//! `lists_dir` describes.
use crate::checksum::crc32_ieee;
use crate::error::{Corruption, Error};
use crate::import_dir::{
    are_paths, create_start, delete_step, ingest_action, ingest_step, is_import_dir, lemma_listed,
    lemma_stages_differ, lemma_subdirs, lemma_uploaded_is_listed, listed, lists_file, open_step,
    readable, CreateFile, DeleteFile, DeletePhase, ImportDir, IngestFile, IngestPhase, OpenDir,
    OpenPhase,
};
use crate::import_file::{
    append_start, cleanup_start, finish_start, AppendFile, CleanupFile, FinishFile, ImportFile,
    ImportFileView, ImportPath,
};
use crate::importer::{
    append_upload_after, append_upload_start, delete_upload_step, finish_upload_start,
    AppendUpload, DeleteUpload, FinishUpload,
};
use crate::meta::{
    identity_of, lemma_name_component, name_meta, nameable, path_meta, sst_file_name, SSTMeta,
    SSTMetaView,
};
use crate::path::{
    dir_prefix, is_below, is_component, is_separator, joined, lemma_joined_file_name, utf8_text,
    FilePath,
};
use crate::task::{kind_of, Action, DirEntry, Event, Reply, Step, Task};
use std::sync::Arc;
use vstd::prelude::*;
use vstd::utf8::encode_utf8;

verus! {

/// Why the model refuses an action.
#[derive(Debug, Clone, Copy, PartialEq, Eq, Structural)]
pub enum HostError {
    NotFound,
    AlreadyExists,
    Mismatch,
}

/// A file system and a storage engine.
#[verifier::ext_equal]
pub struct HostModel {
    /// The files with their contents.
    pub files: Map<Seq<u8>, Seq<u8>>,
    /// The directories.
    pub dirs: Set<Seq<u8>>,
    /// The column families, each with the contents of the files that it took in.
    pub engine: Map<Seq<char>, Seq<Seq<u8>>>,
}

impl HostModel {
    /// Whether there is something at a path.
    pub open spec fn exists_at(self, path: Seq<u8>) -> bool {
        self.files.contains_key(path) || self.dirs.contains(path)
    }

    /// The host with other files.
    pub open spec fn with_files(self, files: Map<Seq<u8>, Seq<u8>>) -> HostModel {
        HostModel { files, ..self }
    }

    /// The host without a directory and all that is in it.
    pub open spec fn without_dir(self, dir: Seq<u8>) -> HostModel {
        HostModel {
            files: self.files.remove_keys(
                Set::new(|path: Seq<u8>| path == dir || is_below(path, dir)),
            ),
            dirs: self.dirs.filter(|path: Seq<u8>| path != dir && !is_below(path, dir)),
            ..self
        }
    }

    /// The host with a directory and those above it.
    pub open spec fn with_dir(self, dir: Seq<u8>) -> HostModel {
        HostModel {
            dirs: self.dirs.union(Set::new(|path: Seq<u8>| path == dir || is_below(dir, path))),
            ..self
        }
    }
}

/// The answer to an action that is done or fails.
pub open spec fn done_if(cond: bool, e: HostError) -> Event<Seq<u8>, HostError> {
    if cond {
        Event::Done(Ok(()))
    } else {
        Event::Done(Err(e))
    }
}

/// What an action does to the host, and the answer to it.
pub open spec fn perform(host: HostModel, action: Action<Seq<u8>>) -> (
    HostModel,
    Event<Seq<u8>, HostError>,
) {
    match action {
        Action::Exists(path) => (host, Event::Found(host.exists_at(path@))),
        Action::RemoveFile(path) => (
            host.with_files(host.files.remove(path@)),
            done_if(host.files.contains_key(path@), HostError::NotFound),
        ),
        Action::RemoveDirAll(path) => if host.dirs.contains(path@) {
            (host.without_dir(path@), Event::Done(Ok(())))
        } else {
            (host, Event::Done(Err(HostError::NotFound)))
        },
        Action::CreateDirAll(path) => if host.files.contains_key(path@) {
            (host, Event::Done(Err(HostError::AlreadyExists)))
        } else {
            (host.with_dir(path@), Event::Done(Ok(())))
        },
        Action::CreateNew(path) => if host.exists_at(path@) {
            (host, Event::Opened(Err(HostError::AlreadyExists)))
        } else {
            (host.with_files(host.files.insert(path@, Seq::empty())), Event::Opened(Ok(path@)))
        },
        Action::Rename(from, to) => if host.files.contains_key(from@) {
            (
                host.with_files(host.files.remove(from@).insert(to@, host.files[from@])),
                Event::Done(Ok(())),
            )
        } else {
            (host, Event::Done(Err(HostError::NotFound)))
        },
        Action::WriteAll(handle, data) => (
            host.with_files(host.files.insert(handle, host.files[handle] + data@)),
            Event::Written(handle, Ok(())),
        ),
        Action::Length(handle) => (
            host,
            Event::Measured(handle, Ok(host.files[handle].len() as u64)),
        ),
        Action::SyncAll(_) | Action::Close(_) => (host, Event::Done(Ok(()))),
        Action::PrepareSst(from, to) => if host.files.contains_key(from@) {
            (host.with_files(host.files.insert(to@, host.files[from@])), Event::Done(Ok(())))
        } else {
            (host, Event::Done(Err(HostError::NotFound)))
        },
        Action::ValidateSst { cf_name, path, length, crc32 } => (
            host,
            if !host.files.contains_key(path@) || !host.engine.contains_key(cf_name@) {
                Event::Done(Err(HostError::NotFound))
            } else {
                done_if(
                    host.files[path@].len() == length && crc32_ieee(host.files[path@]) == crc32,
                    HostError::Mismatch,
                )
            },
        ),
        Action::FindColumnFamily(cf_name) => (
            host,
            done_if(host.engine.contains_key(cf_name@), HostError::NotFound),
        ),
        Action::IngestSst { cf_name, path, move_files } => if host.files.contains_key(path@)
            && host.engine.contains_key(cf_name@) {
            (
                HostModel {
                    files: if move_files {
                        host.files.remove(path@)
                    } else {
                        host.files
                    },
                    engine: host.engine.insert(
                        cf_name@,
                        host.engine[cf_name@].push(host.files[path@]),
                    ),
                    ..host
                },
                Event::Done(Ok(())),
            )
        } else {
            (host, Event::Done(Err(HostError::NotFound)))
        },
        _ => arbitrary(),
    }
}

/// What a task brings about when the host answers it, in at most `limit` actions.
pub open spec fn run<T: Task<Seq<u8>, HostError>>(
    host: HostModel,
    step: Step<Seq<u8>, T::State, T::Outcome>,
    limit: nat,
) -> (HostModel, Option<T::Outcome>)
    decreases limit,
{
    match step {
        Step::Return(outcome) => (host, Some(outcome)),
        Step::Do(action, state) => if limit == 0 {
            (host, None)
        } else {
            let (host, event) = perform(host, action);
            run::<T>(host, T::after(state, event), (limit - 1) as nat)
        },
    }
}

/// Whether an upload is under way: its file is open at its temporary path, and holds what was
/// appended.
pub open spec fn uploading(host: HostModel, file: ImportFileView<Seq<u8>>) -> bool {
    &&& file.file == Some(file.path.temp@)
    &&& host.files.contains_key(file.path.temp@)
    &&& host.files[file.path.temp@] == file.written
    &&& file.path.save@ != file.path.temp@
}

/// Creating a file begins an upload with an empty file at the temporary path. A file that has been
/// uploaded before, or whose upload is under way, cannot be created again, and stays as it is.
pub proof fn lemma_create(host: HostModel, meta: SSTMetaView, path: ImportPath)
    requires
        path.save@ != path.temp@,
    ensures
        ({
            let (after, out) = run::<CreateFile<SSTMeta>>(host, create_start(meta, path), 2);
            if host.exists_at(path.save@) {
                after == host && out == Some(
                    Err::<ImportFileView<Seq<u8>>, Error<HostError>>(Error::FileExists(path.save)),
                )
            } else if host.exists_at(path.temp@) {
                after == host && out == Some(
                    Err::<ImportFileView<Seq<u8>>, Error<HostError>>(
                        Error::Io(HostError::AlreadyExists),
                    ),
                )
            } else {
                let file = ImportFileView::fresh(meta, path, path.temp@);
                &&& out == Some(Ok::<ImportFileView<Seq<u8>>, Error<HostError>>(file))
                &&& after == host.with_files(host.files.insert(path.temp@, Seq::empty()))
                &&& uploading(after, file)
            }
        }),
{
    reveal_with_fuel(run, 4);
}

/// A file to which bytes were appended.
pub open spec fn appended<H>(file: ImportFileView<H>, data: Seq<u8>) -> ImportFileView<H> {
    ImportFileView { written: file.written + data, ..file }
}

/// Appending puts the bytes behind those at the temporary path, and changes nothing else.
pub proof fn lemma_append(host: HostModel, file: ImportFileView<Seq<u8>>, data: Arc<Vec<u8>>)
    requires
        uploading(host, file),
    ensures
        ({
            let (after, out) = run::<AppendFile<ImportFile<Seq<u8>>>>(
                host,
                append_start(file, data),
                1,
            );
            &&& out == Some((appended(file, data@), Ok::<(), Error<HostError>>(())))
            &&& after == host.with_files(host.files.insert(file.path.temp@, file.written + data@))
            &&& uploading(after, appended(file, data@))
        }),
{
    reveal_with_fuel(run, 3);
}

/// What finishing an upload returns: whether the file is what its metadata announces, and whether
/// there is none at its final path.
pub open spec fn verdict(host: HostModel, file: ImportFileView<Seq<u8>>) -> Result<(), Error<HostError>> {
    let length = file.written.len() as u64;
    if !file.crc32_matches() {
        Err(
            Error::FileCorrupted(
                file.path.temp,
                Corruption::Crc32(crc32_ieee(file.written), file.meta.crc32),
            ),
        )
    } else if length != file.meta.length {
        Err(Error::FileCorrupted(file.path.temp, Corruption::Length(length, file.meta.length)))
    } else if host.exists_at(file.path.save@) {
        Err(Error::FileExists(file.path.save))
    } else {
        Ok(())
    }
}

/// A host on which the file of an upload was moved to its final path.
pub open spec fn saved(host: HostModel, file: ImportFileView<Seq<u8>>) -> HostModel {
    host.with_files(host.files.remove(file.path.temp@).insert(file.path.save@, file.written))
}

/// Whether the bytes that were appended to a file are what its metadata announces.
pub open spec fn as_announced<H>(file: ImportFileView<H>) -> bool {
    file.crc32_matches() && file.written.len() as u64 == file.meta.length
}

/// Finishing an upload moves exactly the appended bytes from the temporary to the final path,
/// where they are what the metadata announces and there is no file yet. Otherwise nothing changes.
/// A file that is not what its metadata announces comes back as it was, and open; any other is
/// closed.
pub proof fn lemma_finish(host: HostModel, file: ImportFileView<Seq<u8>>)
    requires
        uploading(host, file),
    ensures
        ({
            let (after, out) = run::<FinishFile<ImportFile<Seq<u8>>>>(host, finish_start(file), 4);
            &&& out == Some(
                (
                    if as_announced(file) {
                        file.with_handle(None)
                    } else {
                        file
                    },
                    verdict(host, file),
                ),
            )
            &&& after == (if verdict(host, file) is Ok {
                saved(host, file)
            } else {
                host
            })
        }),
{
    reveal_with_fuel(run, 6);
}

/// Giving up a file removes it from its temporary path, and nothing else.
pub proof fn lemma_cleanup(host: HostModel, file: ImportFileView<Seq<u8>>)
    requires
        !host.dirs.contains(file.path.temp@),
    ensures
        ({
            let (after, out) = run::<CleanupFile<ImportFile<Seq<u8>>>>(host, cleanup_start(file), 3);
            &&& out == Some((file.with_handle(None), Ok::<(), Error<HostError>>(())))
            &&& after == host.with_files(host.files.remove(file.path.temp@))
        }),
{
    reveal_with_fuel(run, 5);
    assert(host.with_files(host.files.remove(file.path.temp@)) =~= host || host.files.contains_key(
        file.path.temp@,
    ));
}

/// Ending an upload leaves nothing at the temporary path. What was appended is at the final path
/// where the upload has succeeded; otherwise there is no trace of it.
pub proof fn lemma_finish_upload(host: HostModel, file: ImportFileView<Seq<u8>>)
    requires
        uploading(host, file),
        !host.dirs.contains(file.path.temp@),
    ensures
        ({
            let (after, out) = run::<FinishUpload<ImportFile<Seq<u8>>, HostError>>(
                host,
                finish_upload_start(file),
                7,
            );
            &&& out == Some(verdict(host, file))
            &&& after == (if verdict(host, file) is Ok {
                saved(host, file)
            } else {
                host.with_files(host.files.remove(file.path.temp@))
            })
        }),
{
    reveal_with_fuel(run, 9);
}

/// An upload to which bytes were appended comes back with them, and its file holds them.
pub proof fn lemma_append_upload(host: HostModel, file: ImportFileView<Seq<u8>>, data: Arc<Vec<u8>>)
    requires
        uploading(host, file),
    ensures
        ({
            let (after, out) = run::<AppendUpload<ImportFile<Seq<u8>>, HostError>>(
                host,
                append_upload_start(file, data),
                1,
            );
            &&& out == Some(
                Ok::<ImportFileView<Seq<u8>>, Error<HostError>>(appended(file, data@)),
            )
            &&& after == host.with_files(host.files.insert(file.path.temp@, file.written + data@))
            &&& uploading(after, appended(file, data@))
        }),
{
    reveal_with_fuel(run, 3);
}

/// When bytes cannot be written, the upload fails with the error of the host, and leaves
/// nothing at the temporary path.
pub proof fn lemma_failed_append_upload(
    host: HostModel,
    file: ImportFileView<Seq<u8>>,
    data: Arc<Vec<u8>>,
    e: HostError,
)
    requires
        uploading(host, file),
        !host.dirs.contains(file.path.temp@),
    ensures
        ({
            let task = AppendUpload::Appending(
                AppendFile { file: file.with_handle(None), data },
            );
            let (after, out) = run::<AppendUpload<ImportFile<Seq<u8>>, HostError>>(
                host,
                append_upload_after(task, Event::Written(file.path.temp@, Err(e))),
                3,
            );
            &&& out == Some(Err::<ImportFileView<Seq<u8>>, Error<HostError>>(Error::Io(e)))
            &&& after == host.with_files(host.files.remove(file.path.temp@))
        }),
{
    reveal_with_fuel(run, 5);
}

/// Deleting a file removes it at its three paths, and nothing else.
pub proof fn lemma_delete(host: HostModel, path: ImportPath)
    requires
        path.save@ != path.temp@,
        path.save@ != path.clone@,
        path.temp@ != path.clone@,
        !host.dirs.contains(path.save@),
        !host.dirs.contains(path.temp@),
        !host.dirs.contains(path.clone@),
    ensures
        ({
            let (after, out) = run::<DeleteFile>(
                host,
                delete_step(path, DeletePhase::CheckingSave),
                6,
            );
            &&& out == Some(Ok::<ImportPath, Error<HostError>>(path))
            &&& after == host.with_files(
                host.files.remove(path.save@).remove(path.temp@).remove(path.clone@),
            )
        }),
{
    reveal_with_fuel(run, 8);
    let without_save = host.with_files(host.files.remove(path.save@));
    let without_temp = without_save.with_files(without_save.files.remove(path.temp@));
    assert(host.files.contains_key(path.save@) || without_save =~= host);
    assert(without_save.files.contains_key(path.temp@) || without_temp =~= without_save);
    assert(without_temp.files.contains_key(path.clone@) || without_temp.with_files(
        without_temp.files.remove(path.clone@),
    ) =~= without_temp);
}

/// Deleting a file through an importer leaves nothing at any of its three paths, and every other
/// file as it was.
pub proof fn lemma_delete_upload(host: HostModel, path: ImportPath)
    requires
        path.save@ != path.temp@,
        path.save@ != path.clone@,
        path.temp@ != path.clone@,
        !host.dirs.contains(path.save@),
        !host.dirs.contains(path.temp@),
        !host.dirs.contains(path.clone@),
    ensures
        ({
            let (after, out) = run::<DeleteUpload>(
                host,
                delete_upload_step(delete_step(path, DeletePhase::CheckingSave)),
                6,
            );
            &&& out matches Some(Ok(_))
            &&& after.dirs == host.dirs
            &&& after.engine == host.engine
            &&& !after.exists_at(path.save@)
            &&& !after.exists_at(path.temp@)
            &&& !after.exists_at(path.clone@)
            &&& forall|p: Seq<u8>|
                p != path.save@ && p != path.temp@ && p != path.clone@ ==> {
                    &&& #[trigger] after.files.contains_key(p) == host.files.contains_key(p)
                    &&& host.files.contains_key(p) ==> after.files[p] == host.files[p]
                }
        }),
{
    reveal_with_fuel(run, 8);
}

/// Setting up an import directory succeeds and leaves its two subdirectories there and empty.
/// Files outside of them stay, and no directory is added but the two and those above them.
pub proof fn lemma_open_dir(host: HostModel, dir: ImportDir, root: FilePath)
    requires
        is_import_dir(dir, root),
        !host.files.contains_key(dir.temp_dir@),
        !host.files.contains_key(dir.clone_dir@),
        forall|path: Seq<u8>|
            (#[trigger] host.exists_at(path) && is_below(path, dir.temp_dir@)) ==> host.dirs.contains(
                dir.temp_dir@,
            ),
        forall|path: Seq<u8>|
            (#[trigger] host.exists_at(path) && is_below(path, dir.clone_dir@)) ==> host.dirs.contains(
                dir.clone_dir@,
            ),
    ensures
        ({
            let (after, out) = run::<OpenDir>(host, open_step(dir, OpenPhase::CheckingTemp), 6);
            &&& out == Some(Ok::<ImportDir, Error<HostError>>(dir))
            &&& after.dirs.contains(dir.temp_dir@)
            &&& after.dirs.contains(dir.clone_dir@)
            &&& forall|path: Seq<u8>|
                is_below(path, dir.temp_dir@) || is_below(path, dir.clone_dir@)
                    ==> !#[trigger] after.exists_at(path)
            &&& forall|path: Seq<u8>|
                !is_below(path, dir.temp_dir@) && !is_below(path, dir.clone_dir@) ==> {
                    &&& #[trigger] after.files.contains_key(path) == host.files.contains_key(path)
                    &&& host.files.contains_key(path) ==> after.files[path] == host.files[path]
                }
            &&& forall|path: Seq<u8>|
                !is_below(path, dir.temp_dir@) && !is_below(path, dir.clone_dir@) ==> (
                #[trigger] after.dirs.contains(path) <==> {
                    ||| host.dirs.contains(path)
                    ||| path == dir.temp_dir@ || is_below(dir.temp_dir@, path)
                    ||| path == dir.clone_dir@ || is_below(dir.clone_dir@, path)
                })
        }),
{
    reveal_with_fuel(run, 8);
    lemma_subdirs(dir, root);
    let temp = dir.temp_dir@;
    let clone = dir.clone_dir@;
    let host1 = if host.dirs.contains(temp) {
        host.without_dir(temp)
    } else {
        host
    };
    let host2 = if host1.dirs.contains(clone) {
        host1.without_dir(clone)
    } else {
        host1
    };
    let after = host2.with_dir(temp).with_dir(clone);
    assert(host1.dirs.contains(clone) == host.dirs.contains(clone));
    assert(!host1.files.contains_key(clone) && !host2.files.contains_key(temp));
    assert(run::<OpenDir>(host, open_step(dir, OpenPhase::CheckingTemp), 6) == (
        after,
        Some(Ok::<ImportDir, Error<HostError>>(dir)),
    ));
    assert forall|path: Seq<u8>|
        is_below(path, temp) || is_below(path, clone) implies !#[trigger] after.exists_at(path) by {
        assert(!host2.exists_at(path)) by {
            assert(host.exists_at(path) || !host1.exists_at(path));
            assert(host1.exists_at(path) || !host2.exists_at(path));
        }
        assert(path != temp && path != clone);
        if is_below(path, temp) {
            lemma_not_above(path, temp, clone);
        } else {
            lemma_not_above(path, clone, temp);
        }
    }
}

/// What is below one of two directories, of which neither is below the other, is not above the
/// other, and nothing is above and below the same.
proof fn lemma_not_above(path: Seq<u8>, a: Seq<u8>, b: Seq<u8>)
    requires
        is_below(path, a),
        a != b,
        !is_below(b, a),
    ensures
        !is_below(a, path),
        !is_below(b, path),
{
    if is_below(b, path) {
        assert(b.take(a.len() as int) == path.take(a.len() as int)) by {
            assert(b.take(path.len() as int).take(a.len() as int) == b.take(a.len() as int));
        }
        assert(b[a.len() as int] == b.take(path.len() as int)[a.len() as int]);
    }
}

/// All bytes of some chunks.
pub open spec fn all_bytes(chunks: Seq<Arc<Vec<u8>>>) -> Seq<u8>
    decreases chunks.len(),
{
    if chunks.len() == 0 {
        Seq::empty()
    } else {
        all_bytes(chunks.drop_last()) + chunks.last()@
    }
}

/// What appending chunks to an upload one after the other brings about.
pub open spec fn append_all(
    host: HostModel,
    file: ImportFileView<Seq<u8>>,
    chunks: Seq<Arc<Vec<u8>>>,
) -> (HostModel, ImportFileView<Seq<u8>>)
    decreases chunks.len(),
{
    if chunks.len() == 0 {
        (host, file)
    } else {
        let (host, file) = append_all(host, file, chunks.drop_last());
        let (host, out) = run::<AppendUpload<ImportFile<Seq<u8>>, HostError>>(
            host,
            append_upload_start(file, chunks.last()),
            1,
        );
        (host, (out->0)->Ok_0)
    }
}

/// Appending chunks one after the other is the same as appending all of their bytes.
pub proof fn lemma_append_all(
    host: HostModel,
    file: ImportFileView<Seq<u8>>,
    chunks: Seq<Arc<Vec<u8>>>,
)
    requires
        uploading(host, file),
    ensures
        ({
            let (after, grown) = append_all(host, file, chunks);
            &&& grown == appended(file, all_bytes(chunks))
            &&& after == host.with_files(
                host.files.insert(file.path.temp@, file.written + all_bytes(chunks)),
            )
            &&& uploading(after, grown)
        }),
    decreases chunks.len(),
{
    if chunks.len() == 0 {
        assert(file.written + all_bytes(chunks) == file.written);
        assert(host.with_files(host.files.insert(file.path.temp@, file.written)) =~= host);
        assert(appended(file, all_bytes(chunks)) =~= file);
    } else {
        let rest = chunks.drop_last();
        lemma_append_all(host, file, rest);
        let (before, grown) = append_all(host, file, rest);
        lemma_append_upload(before, grown, chunks.last());
        assert(grown.written + chunks.last()@ == file.written + all_bytes(chunks));
        assert(append_all(host, file, chunks).0 =~= host.with_files(
            host.files.insert(file.path.temp@, file.written + all_bytes(chunks)),
        ));
        assert(append_all(host, file, chunks).1 =~= appended(file, all_bytes(chunks)));
    }
}

/// What an upload brings about: the file is created, chunks are appended to it one after the other,
/// and the upload is ended.
pub open spec fn upload(
    host: HostModel,
    meta: SSTMetaView,
    path: ImportPath,
    chunks: Seq<Arc<Vec<u8>>>,
) -> (HostModel, Option<Result<(), Error<HostError>>>) {
    let (created, out) = run::<CreateFile<SSTMeta>>(host, create_start(meta, path), 2);
    match out {
        Some(Ok(file)) => {
            let (written, file) = append_all(created, file, chunks);
            run::<FinishUpload<ImportFile<Seq<u8>>, HostError>>(
                written,
                finish_upload_start(file),
                7,
            )
        },
        Some(Err(e)) => (created, Some(Err(e))),
        None => (created, None),
    }
}

/// An upload of chunks that together have the announced checksum and length ends with exactly
/// their bytes at the final path. Nothing else has changed.
pub proof fn lemma_upload(
    host: HostModel,
    meta: SSTMetaView,
    path: ImportPath,
    chunks: Seq<Arc<Vec<u8>>>,
)
    requires
        path.save@ != path.temp@,
        !host.exists_at(path.save@),
        !host.exists_at(path.temp@),
        crc32_ieee(all_bytes(chunks)) == meta.crc32,
        all_bytes(chunks).len() == meta.length,
    ensures
        upload(host, meta, path, chunks) == (
            host.with_files(host.files.insert(path.save@, all_bytes(chunks))),
            Some(Ok::<(), Error<HostError>>(())),
        ),
{
    lemma_create(host, meta, path);
    let (created, out) = run::<CreateFile<SSTMeta>>(host, create_start(meta, path), 2);
    let file = ImportFileView::fresh(meta, path, path.temp@);
    lemma_append_all(created, file, chunks);
    let (written, grown) = append_all(created, file, chunks);
    assert(grown.written == all_bytes(chunks));
    lemma_finish_upload(written, grown);
    assert(saved(written, grown) =~= host.with_files(
        host.files.insert(path.save@, all_bytes(chunks)),
    ));
}

/// Deleting a file undoes its upload.
pub proof fn lemma_delete_undoes_upload(
    host: HostModel,
    meta: SSTMetaView,
    path: ImportPath,
    chunks: Seq<Arc<Vec<u8>>>,
)
    requires
        path.save@ != path.temp@,
        path.save@ != path.clone@,
        path.temp@ != path.clone@,
        !host.exists_at(path.save@),
        !host.exists_at(path.temp@),
        !host.exists_at(path.clone@),
        crc32_ieee(all_bytes(chunks)) == meta.crc32,
        all_bytes(chunks).len() == meta.length,
    ensures
        run::<DeleteFile>(
            upload(host, meta, path, chunks).0,
            delete_step(path, DeletePhase::CheckingSave),
            6,
        ) == (host, Some(Ok::<ImportPath, Error<HostError>>(path))),
{
    lemma_upload(host, meta, path, chunks);
    let uploaded = upload(host, meta, path, chunks).0;
    lemma_delete(uploaded, path);
    assert(uploaded.with_files(
        uploaded.files.remove(path.save@).remove(path.temp@).remove(path.clone@),
    ) =~= host);
}

/// Whether there is a file at a path, directly in a directory.
pub open spec fn holds_file(host: HostModel, dir: Seq<u8>, path: Seq<u8>) -> bool {
    &&& host.files.contains_key(path)
    &&& exists|name: Seq<u8>| #[trigger] is_component(name) && path == joined(dir, name)
}

/// The path of an entry that is a file.
pub open spec fn file_at<E>(entries: Seq<DirEntry<E>>, i: int) -> Option<Seq<u8>> {
    match entries[i] {
        DirEntry::Entry(path, Ok(true)) => Some(path@),
        _ => None,
    }
}

/// Whether a listing shows no file twice.
pub open spec fn lists_once<E>(entries: Seq<DirEntry<E>>) -> bool {
    forall|i: int, j: int|
        0 <= i < j < entries.len() && #[trigger] file_at(entries, i) is Some
            && #[trigger] file_at(entries, j) is Some ==> file_at(entries, i) != file_at(entries, j)
}

/// Whether a listing shows exactly the files in a directory, each of them once.
pub open spec fn lists_dir(host: HostModel, dir: Seq<u8>, entries: Seq<DirEntry<HostError>>) -> bool {
    &&& readable(entries)
    &&& lists_once(entries)
    &&& forall|entry: FilePath| #[trigger]
        lists_file(entries, entry) ==> holds_file(host, dir, entry@)
    &&& forall|path: Seq<u8>| #[trigger]
        holds_file(host, dir, path) ==> exists|entry: FilePath| #[trigger]
            lists_file(entries, entry) && entry@ == path
}

/// A file that was uploaded into an import directory is listed under its identity.
pub proof fn lemma_upload_is_listed(
    host: HostModel,
    dir: ImportDir,
    root: FilePath,
    meta: SSTMetaView,
    path: ImportPath,
    chunks: Seq<Arc<Vec<u8>>>,
    entries: Seq<DirEntry<HostError>>,
)
    requires
        is_import_dir(dir, root),
        nameable(meta),
        are_paths(dir, encode_utf8(sst_file_name(meta)), path),
        !host.exists_at(path.save@),
        !host.exists_at(path.temp@),
        crc32_ieee(all_bytes(chunks)) == meta.crc32,
        all_bytes(chunks).len() == meta.length,
        lists_dir(upload(host, meta, path, chunks).0, root@, entries),
    ensures
        listed(entries) matches Ok(ssts) && ssts.contains(identity_of(meta)),
{
    let name = encode_utf8(sst_file_name(meta));
    lemma_name_component(meta);
    lemma_stages_differ(dir, root, name, path);
    lemma_upload(host, meta, path, chunks);
    assert(is_component(name) && path.save@ == joined(root@, name));
    assert(holds_file(upload(host, meta, path, chunks).0, root@, path.save@));
    let entry = choose|entry: FilePath| #[trigger]
        lists_file(entries, entry) && entry@ == path.save@;
    lemma_uploaded_is_listed(dir, meta, path, entries, entry);
}

/// Whether every file in a directory whose name carries this identity has the name that an upload
/// gives it. A name may carry the same identity in another way: in upper case, with leading zeros.
pub open spec fn named_once(host: HostModel, dir: Seq<u8>, meta: SSTMetaView) -> bool {
    forall|name: Seq<u8>| #[trigger]
        is_component(name) && host.files.contains_key(joined(dir, name)) && (utf8_text(
            name,
        ) matches Some(text) && name_meta::<HostError>(text) == Some(
            Ok::<SSTMetaView, Error<HostError>>(identity_of(meta)),
        )) ==> name == encode_utf8(sst_file_name(meta))
}

/// A file that was deleted from an import directory is not listed any more.
pub proof fn lemma_deleted_is_not_listed(
    host: HostModel,
    dir: ImportDir,
    root: FilePath,
    meta: SSTMetaView,
    path: ImportPath,
    entries: Seq<DirEntry<HostError>>,
)
    requires
        is_import_dir(dir, root),
        nameable(meta),
        are_paths(dir, encode_utf8(sst_file_name(meta)), path),
        !host.dirs.contains(path.save@),
        !host.dirs.contains(path.temp@),
        !host.dirs.contains(path.clone@),
        named_once(host, root@, meta),
        lists_dir(
            run::<DeleteFile>(host, delete_step(path, DeletePhase::CheckingSave), 6).0,
            root@,
            entries,
        ),
    ensures
        listed(entries) matches Ok(ssts) && !ssts.contains(identity_of(meta)),
{
    let canonical = encode_utf8(sst_file_name(meta));
    lemma_name_component(meta);
    lemma_stages_differ(dir, root, canonical, path);
    lemma_delete(host, path);
    let after = run::<DeleteFile>(host, delete_step(path, DeletePhase::CheckingSave), 6).0;
    lemma_listed(entries);
    if listed(entries)->Ok_0.contains(identity_of(meta)) {
        let entry = choose|entry: FilePath| #[trigger]
            lists_file(entries, entry) && path_meta::<HostError>(entry) == Ok::<
                SSTMetaView,
                Error<HostError>,
            >(identity_of(meta));
        assert(holds_file(after, root@, entry@));
        let name = choose|name: Seq<u8>| #[trigger]
            is_component(name) && entry@ == joined(root@, name);
        lemma_joined_file_name(root@, name);
        assert(name == canonical);
    }
}

/// The host when an uploaded file was ingested: the engine has taken in its bytes, and the copy is
/// gone.
pub open spec fn ingested(host: HostModel, file: IngestFile) -> HostModel {
    HostModel {
        files: host.files.remove(file.path.clone@),
        engine: host.engine.insert(
            file.cf_name@,
            host.engine[file.cf_name@].push(host.files[file.path.save@]),
        ),
        ..host
    }
}

/// Ingesting a file that is what its metadata announces, into a column family that there is, has
/// the engine take in exactly its bytes. The saved file stays, and no copy is left.
pub proof fn lemma_ingest(host: HostModel, file: IngestFile)
    requires
        file.path.save@ != file.path.clone@,
        host.files.contains_key(file.path.save@),
        host.files[file.path.save@].len() == file.length,
        crc32_ieee(host.files[file.path.save@]) == file.crc32,
        host.engine.contains_key(file.cf_name@),
    ensures
        run::<IngestFile>(host, ingest_step(file, IngestPhase::Preparing), 4) == (
            ingested(host, file),
            Some(Ok::<(), Error<HostError>>(())),
        ),
        ingested(host, file).files.contains_key(file.path.save@),
        ingested(host, file).files[file.path.save@] == host.files[file.path.save@],
{
    reveal_with_fuel(run, 6);
    let after = run::<IngestFile>(host, ingest_step(file, IngestPhase::Preparing), 4).0;
    assert(after.files =~= host.files.remove(file.path.clone@));
}

/// Ingesting a file succeeds exactly where there is a saved file with the announced length and
/// checksum, and the engine has the column family. Otherwise the engine takes in nothing.
pub proof fn lemma_ingest_checks(host: HostModel, file: IngestFile)
    requires
        file.path.save@ != file.path.clone@,
    ensures
        ({
            let (after, out) = run::<IngestFile>(
                host,
                ingest_step(file, IngestPhase::Preparing),
                4,
            );
            let good = {
                &&& host.files.contains_key(file.path.save@)
                &&& host.files[file.path.save@].len() == file.length
                &&& crc32_ieee(host.files[file.path.save@]) == file.crc32
                &&& host.engine.contains_key(file.cf_name@)
            };
            match out {
                Some(Ok(_)) => {
                    &&& good
                    &&& after.engine.dom() == host.engine.dom()
                    &&& after.engine[file.cf_name@] == host.engine[file.cf_name@].push(
                        host.files[file.path.save@],
                    )
                    &&& forall|cf_name: Seq<char>|
                        cf_name != file.cf_name@ && #[trigger] host.engine.contains_key(cf_name)
                            ==> after.engine[cf_name] == host.engine[cf_name]
                },
                Some(Err(_)) => !good && after.engine == host.engine,
                None => false,
            }
        }),
{
    reveal_with_fuel(run, 6);
    let (after, out) = run::<IngestFile>(host, ingest_step(file, IngestPhase::Preparing), 4);
    if out matches Some(Ok(_)) {
        assert(after.engine.dom() =~= host.engine.dom());
    }
}

/// Whether or not a file can be ingested, no file changes but the copy, and no directory.
pub proof fn lemma_ingest_changes(host: HostModel, file: IngestFile)
    ensures
        ({
            let (after, out) = run::<IngestFile>(
                host,
                ingest_step(file, IngestPhase::Preparing),
                4,
            );
            &&& out is Some
            &&& after.dirs == host.dirs
            &&& after.files.remove(file.path.clone@) == host.files.remove(file.path.clone@)
        }),
{
    reveal_with_fuel(run, 6);
    let (after, out) = run::<IngestFile>(host, ingest_step(file, IngestPhase::Preparing), 4);
    assert(after.files.remove(file.path.clone@) =~= host.files.remove(file.path.clone@));
}

/// What a task returns when the host gives it these answers and no others, each of the kind that
/// it waits for.
pub open spec fn play<H, E, T: Task<H, E>>(
    step: Step<H, T::State, T::Outcome>,
    events: Seq<Event<H, E>>,
) -> Option<T::Outcome>
    decreases events.len(),
{
    match step {
        Step::Return(outcome) => if events.len() == 0 {
            Some(outcome)
        } else {
            None
        },
        Step::Do(_, state) => if events.len() == 0 || kind_of(events[0]) != T::awaits(state) {
            None
        } else {
            play::<H, E, T>(T::after(state, events[0]), events.skip(1))
        },
    }
}

/// Whatever the host answers, finishing a file succeeds exactly when the appended bytes have the
/// announced checksum, the file was measured to have the announced length, it was brought to the
/// disk, nothing was found at the final path, and it was moved there.
pub proof fn lemma_finish_succeeds<H, E>(file: ImportFileView<H>, events: Seq<Event<H, E>>)
    ensures
        (play::<H, E, FinishFile<ImportFile<H>>>(finish_start(file), events) matches Some(
            out,
        ) && out.1 is Ok) <==> {
            &&& file.crc32_matches()
            &&& events.len() == 4
            &&& events[0] matches Event::Measured(_, Ok(length)) && length == file.meta.length
            &&& events[1] matches Event::Done(Ok(_))
            &&& events[2] matches Event::Found(false)
            &&& events[3] matches Event::Done(Ok(_))
        },
{
    reveal_with_fuel(play, 6);
    let e1 = events.skip(1);
    let e2 = e1.skip(1);
    let e3 = e2.skip(1);
    assert(events.len() >= 1 ==> e1.len() == events.len() - 1);
    assert(events.len() >= 2 ==> e1[0] == events[1] && e2.len() == events.len() - 2);
    assert(events.len() >= 3 ==> e2[0] == events[2] && e3.len() == events.len() - 3);
    assert(events.len() >= 4 ==> e3[0] == events[3] && e3.skip(1).len() == events.len() - 4);
}

/// Whatever the host answers, ingesting a file succeeds exactly when the copy was prepared, held
/// against the metadata, the column family was found and the engine took the copy in.
pub proof fn lemma_ingest_succeeds<H, E>(file: IngestFile, events: Seq<Event<H, E>>)
    ensures
        (play::<H, E, IngestFile>(ingest_step(file, IngestPhase::Preparing), events) matches Some(
            Ok(_),
        )) <==> {
            &&& events.len() == 4
            &&& forall|i: int| 0 <= i < 4 ==> #[trigger] events[i] matches Event::Done(Ok(_))
        },
{
    reveal_with_fuel(play, 6);
    let e1 = events.skip(1);
    let e2 = e1.skip(1);
    let e3 = e2.skip(1);
    assert(events.len() >= 1 ==> e1.len() == events.len() - 1);
    assert(events.len() >= 2 ==> e1[0] == events[1] && e2.len() == events.len() - 2);
    assert(events.len() >= 3 ==> e2[0] == events[2] && e3.len() == events.len() - 3);
    assert(events.len() >= 4 ==> e3[0] == events[3] && e3.skip(1).len() == events.len() - 4);
}

/// The actions that a task asks for when the host gives it these answers.
pub open spec fn asked<H, E, T: Task<H, E>>(
    step: Step<H, T::State, T::Outcome>,
    events: Seq<Event<H, E>>,
) -> Seq<Action<H>>
    decreases events.len(),
{
    match step {
        Step::Return(_) => Seq::empty(),
        Step::Do(action, state) => if events.len() == 0 || kind_of(events[0]) != T::awaits(state) {
            seq![action]
        } else {
            seq![action] + asked::<H, E, T>(T::after(state, events[0]), events.skip(1))
        },
    }
}

/// Whether an action speaks of a path.
pub open spec fn names<H>(action: Action<H>, path: Seq<u8>) -> bool {
    match action {
        Action::Exists(p) | Action::RemoveFile(p) | Action::RemoveDirAll(p) => p@ == path,
        Action::CreateDirAll(p) | Action::CreateNew(p) | Action::ReadDir(p) => p@ == path,
        Action::Rename(from, to) | Action::PrepareSst(from, to) => from@ == path || to@ == path,
        Action::ValidateSst { path: p, .. } | Action::IngestSst { path: p, .. } => p@ == path,
        Action::WriteAll(_, _) | Action::Length(_) | Action::SyncAll(_) | Action::Close(_) => false,
        Action::FindColumnFamily(_) => false,
    }
}

/// Whether an action may write, remove or move what is at a path. What is written to an open file
/// may be at any path.
pub open spec fn alters<H>(action: Action<H>, path: Seq<u8>) -> bool {
    match action {
        Action::RemoveFile(p) | Action::CreateNew(p) => p@ == path,
        Action::CreateDirAll(p) => p@ == path || is_below(p@, path),
        Action::RemoveDirAll(p) => p@ == path || is_below(path, p@),
        Action::Rename(from, to) => from@ == path || to@ == path,
        Action::WriteAll(_, _) => true,
        Action::PrepareSst(_, to) => to@ == path,
        Action::IngestSst { path: p, .. } => p@ == path,
        Action::Exists(_) | Action::Length(_) | Action::SyncAll(_) | Action::Close(_) => false,
        Action::ReadDir(_) | Action::ValidateSst { .. } | Action::FindColumnFamily(_) => false,
    }
}

/// What is asked for from a stage of ingesting a file on.
proof fn lemma_ingest_asks<H, E>(file: IngestFile, phase: IngestPhase, events: Seq<Event<H, E>>)
    requires
        file.path.save@ != file.path.clone@,
    ensures
        ({
            let actions = asked::<H, E, IngestFile>(ingest_step(file, phase), events);
            forall|i: int|
                0 <= i < actions.len() ==> !alters(#[trigger] actions[i], file.path.save@) && (i > 0
                    || phase != IngestPhase::Preparing ==> !names(actions[i], file.path.save@))
        }),
    decreases events.len(),
{
    let actions = asked::<H, E, IngestFile>(ingest_step(file, phase), events);
    let state = IngestFile { phase, ..file };
    if events.len() > 0 && kind_of(events[0]) == Reply::Done {
        let rest = events.skip(1);
        match phase {
            IngestPhase::Preparing => lemma_ingest_asks(state, IngestPhase::Validating, rest),
            IngestPhase::Validating => lemma_ingest_asks(state, IngestPhase::Finding, rest),
            IngestPhase::Finding => lemma_ingest_asks(state, IngestPhase::Ingesting, rest),
            IngestPhase::Ingesting => {},
        }
        let step = <IngestFile as Task<H, E>>::after(state, events[0]);
        let later = asked::<H, E, IngestFile>(step, rest);
        assert(actions == seq![ingest_action::<H>(state)] + later);
        assert forall|i: int| 0 <= i < actions.len() implies !alters(
            #[trigger] actions[i],
            file.path.save@,
        ) && (i > 0 || phase != IngestPhase::Preparing ==> !names(actions[i], file.path.save@)) by {
            if i > 0 {
                assert(actions[i] == later[i - 1]);
            }
        }
    } else {
        assert(actions == seq![ingest_action::<H>(state)]);
    }
}

/// Whatever the host answers, ingesting a file asks for nothing that writes, removes or moves the
/// saved file, and speaks of it only once, to have it copied.
pub proof fn lemma_ingest_spares_saved<H, E>(file: IngestFile, events: Seq<Event<H, E>>)
    requires
        file.path.save@ != file.path.clone@,
    ensures
        ({
            let actions = asked::<H, E, IngestFile>(
                ingest_step(file, IngestPhase::Preparing),
                events,
            );
            &&& actions.len() > 0
            &&& actions[0] == Action::<H>::PrepareSst(file.path.save, file.path.clone)
            &&& forall|i: int|
                0 <= i < actions.len() ==> !alters(#[trigger] actions[i], file.path.save@)
            &&& forall|i: int|
                0 < i < actions.len() ==> !names(#[trigger] actions[i], file.path.save@)
        }),
{
    lemma_ingest_asks(file, IngestPhase::Preparing, events);
}

/// What is asked for from a stage of deleting a file on.
proof fn lemma_delete_asks<H, E>(path: ImportPath, phase: DeletePhase, events: Seq<Event<H, E>>)
    ensures
        ({
            let actions = asked::<H, E, DeleteFile>(delete_step(path, phase), events);
            forall|i: int, p: Seq<u8>|
                0 <= i < actions.len() && p != path.save@ && p != path.temp@ && p != path.clone@
                    ==> !#[trigger] alters(actions[i], p)
        }),
    decreases events.len(),
{
    let actions = asked::<H, E, DeleteFile>(delete_step(path, phase), events);
    let state = DeleteFile { path, phase };
    if events.len() > 0 && kind_of(events[0]) == <DeleteFile as Task<H, E>>::awaits(state) {
        let rest = events.skip(1);
        let step = <DeleteFile as Task<H, E>>::after(state, events[0]);
        let later = asked::<H, E, DeleteFile>(step, rest);
        if let Step::Do(_, next) = step {
            assert(step == delete_step::<H, E>(path, next.phase));
            lemma_delete_asks(path, next.phase, rest);
        }
        assert(actions.skip(1) == later);
        assert forall|i: int, p: Seq<u8>|
            0 <= i < actions.len() && p != path.save@ && p != path.temp@ && p
                != path.clone@ implies !#[trigger] alters(actions[i], p) by {
            if i > 0 {
                assert(actions[i] == later[i - 1]);
            }
        }
    }
}

/// Whatever the host answers, deleting a file asks for nothing that writes, removes or moves what is
/// at any path but the three of the file.
pub proof fn lemma_delete_spares_others<H, E>(path: ImportPath, events: Seq<Event<H, E>>)
    ensures
        ({
            let actions = asked::<H, E, DeleteFile>(
                delete_step(path, DeletePhase::CheckingSave),
                events,
            );
            forall|i: int, p: Seq<u8>|
                0 <= i < actions.len() && p != path.save@ && p != path.temp@ && p != path.clone@
                    ==> !#[trigger] alters(actions[i], p)
        }),
{
    lemma_delete_asks(path, DeletePhase::CheckingSave, events);
}

/// Whether a path is that of a directory, or above or below it.
pub open spec fn in_line(path: Seq<u8>, dir: Seq<u8>) -> bool {
    path == dir || is_below(path, dir) || is_below(dir, path)
}

/// What is asked for from a stage of setting up a directory on.
proof fn lemma_open_asks<H, E>(dir: ImportDir, phase: OpenPhase, events: Seq<Event<H, E>>)
    ensures
        ({
            let actions = asked::<H, E, OpenDir>(open_step(dir, phase), events);
            forall|i: int, p: Seq<u8>|
                0 <= i < actions.len() && !in_line(p, dir.temp_dir@) && !in_line(p, dir.clone_dir@)
                    ==> !#[trigger] alters(actions[i], p)
        }),
    decreases events.len(),
{
    let actions = asked::<H, E, OpenDir>(open_step(dir, phase), events);
    let state = OpenDir { dir, phase };
    if events.len() > 0 && kind_of(events[0]) == <OpenDir as Task<H, E>>::awaits(state) {
        let rest = events.skip(1);
        let step = <OpenDir as Task<H, E>>::after(state, events[0]);
        let later = asked::<H, E, OpenDir>(step, rest);
        if let Step::Do(_, next) = step {
            assert(step == open_step::<H, E>(dir, next.phase));
            lemma_open_asks(dir, next.phase, rest);
        }
        assert(actions.skip(1) == later);
        assert forall|i: int, p: Seq<u8>|
            0 <= i < actions.len() && !in_line(p, dir.temp_dir@) && !in_line(
                p,
                dir.clone_dir@,
            ) implies !#[trigger] alters(actions[i], p) by {
            if i > 0 {
                assert(actions[i] == later[i - 1]);
            }
        }
    }
}

/// Whatever the host answers, setting up an import directory asks for nothing that writes, removes
/// or moves anything but its two subdirectories, what is above them and what is in them. So every
/// other entry of the root is spared.
pub proof fn lemma_open_spares_others<H, E>(
    dir: ImportDir,
    root: FilePath,
    events: Seq<Event<H, E>>,
)
    requires
        is_import_dir(dir, root),
    ensures
        ({
            let actions = asked::<H, E, OpenDir>(open_step(dir, OpenPhase::CheckingTemp), events);
            &&& forall|i: int, p: Seq<u8>|
                0 <= i < actions.len() && !in_line(p, dir.temp_dir@) && !in_line(p, dir.clone_dir@)
                    ==> !#[trigger] alters(actions[i], p)
            &&& forall|i: int, name: Seq<u8>|
                #![trigger alters(actions[i], joined(root@, name))]
                0 <= i < actions.len() && is_component(name) && joined(root@, name)
                    != dir.temp_dir@ && joined(root@, name) != dir.clone_dir@ ==> !alters(
                    actions[i],
                    joined(root@, name),
                )
        }),
{
    lemma_open_asks(dir, OpenPhase::CheckingTemp, events);
    lemma_subdirs(dir, root);
    let actions = asked::<H, E, OpenDir>(open_step(dir, OpenPhase::CheckingTemp), events);
    assert forall|i: int, name: Seq<u8>|
        #![trigger alters(actions[i], joined(root@, name))]
        0 <= i < actions.len() && is_component(name) && joined(root@, name) != dir.temp_dir@
            && joined(root@, name) != dir.clone_dir@ implies !alters(
        actions[i],
        joined(root@, name),
    ) by {
        let n = dir_prefix(root@).len() as int;
        let p = joined(root@, name);
        assert(!is_separator(name[0]));
        assert(p == dir_prefix(root@) + name);
        assert forall|k: int| n <= k < p.len() implies !is_separator(#[trigger] p[k]) by {
            assert(p[k] == name[k - n]);
        }
        assert forall|k: int| n <= k < dir.temp_dir@.len() implies !is_separator(
            #[trigger] dir.temp_dir@[k],
        ) by {}
        assert forall|k: int| n <= k < dir.clone_dir@.len() implies !is_separator(
            #[trigger] dir.clone_dir@[k],
        ) by {}
    }
}

/// Setting up a directory, deleting a file and ingesting one end with the first failure, and with
/// its error.
pub proof fn lemma_failure_ends<H, E>(dir: OpenDir, delete: DeleteFile, ingest: IngestFile, e: E)
    requires
        <OpenDir as Task<H, E>>::awaits(dir) == Reply::Done,
        <DeleteFile as Task<H, E>>::awaits(delete) == Reply::Done,
    ensures
        <OpenDir as Task<H, E>>::after(dir, Event::Done(Err(e))) == Step::<
            H,
            OpenDir,
            Result<ImportDir, Error<E>>,
        >::Return(Err(Error::Io(e))),
        <DeleteFile as Task<H, E>>::after(delete, Event::Done(Err(e))) == Step::<
            H,
            DeleteFile,
            Result<ImportPath, Error<E>>,
        >::Return(Err(Error::Io(e))),
        <IngestFile as Task<H, E>>::after(ingest, Event::Done(Err(e))) == Step::<
            H,
            IngestFile,
            Result<(), Error<E>>,
        >::Return(Err(Error::Io(e))),
{
}

} // verus!
