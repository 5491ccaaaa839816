//! What the operations ask for, answer by answer, and what they return.
use crate::checksum::crc32_ieee;
use crate::error::{Corruption, Error, Token};
use crate::import_dir::{
    create_start, delete_step, ingest_step, ingests, listed, listed_outcome, open_step, CreateFile,
    DeleteFile, DeletePhase, ImportDir, IngestFile, IngestPhase, ListDir, OpenDir, OpenPhase,
};
use crate::import_file::{
    append_start, cleanup_start, crc32_check, create_file_start, finish_start, length_check,
    validate_start, AppendFile, CleanupFile, FinishFile, ImportFile, ImportFileView, ImportPath,
    OpenFile, ValidateFile,
};
use crate::importer::{
    append_upload_start, delete_upload_step, finish_upload_start, token_after, AppendUpload,
    DeleteUpload, FinishUpload, SSTImporterView,
};
use crate::meta::{path_meta, SSTMeta, SSTMetaView};
use crate::path::FilePath;
use crate::task::{
    expects_reply, kind_of, reply_to, step_content, Action, DirEntry, Event, Reply, Step, Task,
};
use std::sync::Arc;
use vstd::prelude::*;

verus! {

/// What comes after a step when the host answers.
pub open spec fn answered<H, E, T: Task<H, E>>(
    step: Step<H, T::State, T::Outcome>,
    event: Event<H, E>,
) -> Step<H, T::State, T::Outcome> {
    match step {
        Step::Do(_, state) => T::after(state, event),
        Step::Return(out) => Step::Return(out),
    }
}

/// Whether a step asks for an action.
pub open spec fn asks<H, S, O>(step: Step<H, S, O>, action: Action<H>) -> bool {
    step matches Step::Do(a, _) && a == action
}

/// Whether an operation has ended with a result.
pub open spec fn ends_with<H, S, O>(step: Step<H, S, O>, out: O) -> bool {
    step matches Step::Return(o) && o == out
}

/// Each action calls for its kind of answer.
pub proof fn lemma_replies<H>(
    path: FilePath,
    other: FilePath,
    handle: H,
    data: Arc<Vec<u8>>,
    cf_name: String,
    length: u64,
    crc32: u32,
    flag: bool,
)
    ensures
        reply_to(Action::<H>::Exists(path)) == Reply::Found,
        reply_to(Action::<H>::RemoveFile(path)) == Reply::Done,
        reply_to(Action::<H>::RemoveDirAll(path)) == Reply::Done,
        reply_to(Action::<H>::CreateDirAll(path)) == Reply::Done,
        reply_to(Action::<H>::CreateNew(path)) == Reply::Opened,
        reply_to(Action::<H>::Rename(path, other)) == Reply::Done,
        reply_to(Action::WriteAll(handle, data)) == Reply::Written,
        reply_to(Action::Length(handle)) == Reply::Measured,
        reply_to(Action::SyncAll(handle)) == Reply::Done,
        reply_to(Action::Close(handle)) == Reply::Done,
        reply_to(Action::<H>::ReadDir(path)) == Reply::Listed,
        reply_to(Action::<H>::PrepareSst(path, other)) == Reply::Done,
        reply_to(Action::<H>::ValidateSst { cf_name, path, length, crc32 }) == Reply::Done,
        reply_to(Action::<H>::FindColumnFamily(cf_name)) == Reply::Done,
        reply_to(Action::<H>::IngestSst { cf_name, path, move_files: flag }) == Reply::Done,
{
}

/// Each answer is of its own kind.
pub proof fn lemma_kinds<H, E>(event: Event<H, E>)
    ensures
        event is Found <==> kind_of(event) == Reply::Found,
        event is Done <==> kind_of(event) == Reply::Done,
        event is Opened <==> kind_of(event) == Reply::Opened,
        event is Written <==> kind_of(event) == Reply::Written,
        event is Measured <==> kind_of(event) == Reply::Measured,
        event is Listed <==> kind_of(event) == Reply::Listed,
{
}

/// The content of a step is its action with the content of its task, or the content of its result;
/// and its task waits for the answer to its action.
pub proof fn lemma_step_content<H, E, T: Task<H, E>>(action: Action<H>, task: T, out: T::Out)
    ensures
        asks(step_content::<H, E, T>(Step::Do(action, task)), action),
        step_content::<H, E, T>(Step::Do(action, task)) == Step::<H, T::State, T::Outcome>::Do(
            action,
            task.state(),
        ),
        step_content::<H, E, T>(Step::Return(out)) == Step::<H, T::State, T::Outcome>::Return(
            T::outcome(out),
        ),
        expects_reply::<H, E, T>(Step::Do(action, task)) <==> T::awaits(task.state()) == reply_to(
            action,
        ),
{
}

/// The content of a task on a file is made of the contents of its file and of what else it holds.
pub proof fn lemma_file_tasks<H, E>(
    meta: SSTMeta,
    path: ImportPath,
    file: ImportFile<H>,
    data: Arc<Vec<u8>>,
)
    ensures
        <OpenFile<SSTMeta> as Task<H, E>>::state(OpenFile { meta, path }) == (OpenFile {
            meta: meta@,
            path,
        }),
        <CreateFile<SSTMeta> as Task<H, E>>::state(CreateFile::Checking(OpenFile { meta, path }))
            == CreateFile::Checking(OpenFile { meta: meta@, path }),
        <CreateFile<SSTMeta> as Task<H, E>>::state(CreateFile::Opening(OpenFile { meta, path }))
            == CreateFile::Opening(OpenFile { meta: meta@, path }),
        <AppendFile<ImportFile<H>> as Task<H, E>>::state(AppendFile { file, data }) == (AppendFile {
            file: file@,
            data,
        }),
        <ValidateFile<ImportFile<H>> as Task<H, E>>::state(ValidateFile { file }) == (ValidateFile {
            file: file@,
        }),
        <FinishFile<ImportFile<H>> as Task<H, E>>::state(
            FinishFile::Validating(ValidateFile { file }),
        ) == FinishFile::Validating(ValidateFile { file: file@ }),
        <FinishFile<ImportFile<H>> as Task<H, E>>::state(FinishFile::Syncing(file))
            == FinishFile::Syncing(file@),
        <FinishFile<ImportFile<H>> as Task<H, E>>::state(FinishFile::Checking(file))
            == FinishFile::Checking(file@),
        <FinishFile<ImportFile<H>> as Task<H, E>>::state(FinishFile::Renaming(file))
            == FinishFile::Renaming(file@),
        <CleanupFile<ImportFile<H>> as Task<H, E>>::state(CleanupFile::Closing(file))
            == CleanupFile::Closing(file@),
        <CleanupFile<ImportFile<H>> as Task<H, E>>::state(CleanupFile::Checking(file))
            == CleanupFile::Checking(file@),
        <CleanupFile<ImportFile<H>> as Task<H, E>>::state(CleanupFile::Removing(file))
            == CleanupFile::Removing(file@),
{
}

/// The content of a task on an upload is made of the contents of its parts.
pub proof fn lemma_upload_tasks<H, E>(
    append: AppendFile<ImportFile<H>>,
    finish: FinishFile<ImportFile<H>>,
    cleanup: CleanupFile<ImportFile<H>>,
    e: Error<E>,
    r: Result<(), Error<E>>,
)
    ensures
        <AppendUpload<ImportFile<H>, E> as Task<H, E>>::state(AppendUpload::Appending(append))
            == AppendUpload::<ImportFileView<H>, E>::Appending(
            <AppendFile<ImportFile<H>> as Task<H, E>>::state(append),
        ),
        <AppendUpload<ImportFile<H>, E> as Task<H, E>>::state(AppendUpload::Discarding(cleanup, e))
            == AppendUpload::<ImportFileView<H>, E>::Discarding(
            <CleanupFile<ImportFile<H>> as Task<H, E>>::state(cleanup),
            e,
        ),
        <FinishUpload<ImportFile<H>, E> as Task<H, E>>::state(FinishUpload::Finishing(finish))
            == FinishUpload::<ImportFileView<H>, E>::Finishing(
            <FinishFile<ImportFile<H>> as Task<H, E>>::state(finish),
        ),
        <FinishUpload<ImportFile<H>, E> as Task<H, E>>::state(FinishUpload::Discarding(cleanup, r))
            == FinishUpload::<ImportFileView<H>, E>::Discarding(
            <CleanupFile<ImportFile<H>> as Task<H, E>>::state(cleanup),
            r,
        ),
{
}

/// The other tasks are their own content.
pub proof fn lemma_plain_tasks<H, E>(
    open: OpenDir,
    delete: DeleteFile,
    delete_upload: DeleteUpload,
    ingest: IngestFile,
    list: ListDir,
)
    ensures
        <OpenDir as Task<H, E>>::state(open) == open,
        <DeleteFile as Task<H, E>>::state(delete) == delete,
        <DeleteUpload as Task<H, E>>::state(delete_upload) == delete_upload,
        <IngestFile as Task<H, E>>::state(ingest) == ingest,
        <ListDir as Task<H, E>>::state(list) == list,
{
}

/// The content of a result that holds a file has the content of the file; an error is the same.
pub proof fn lemma_file_outcomes<H, E>(
    file: ImportFile<H>,
    created: Result<ImportFile<H>, Error<E>>,
    r: Result<(), Error<E>>,
)
    ensures
        <AppendFile<ImportFile<H>> as Task<H, E>>::outcome((file, r)) == (file@, r),
        <ValidateFile<ImportFile<H>> as Task<H, E>>::outcome((file, r)) == (file@, r),
        <FinishFile<ImportFile<H>> as Task<H, E>>::outcome((file, r)) == (file@, r),
        <CleanupFile<ImportFile<H>> as Task<H, E>>::outcome((file, r)) == (file@, r),
        <FinishUpload<ImportFile<H>, E> as Task<H, E>>::outcome(r) == r,
        match created {
            Ok(f) => {
                let expected = Ok::<ImportFileView<H>, Error<E>>(f@);
                &&& <OpenFile<SSTMeta> as Task<H, E>>::outcome(created) == expected
                &&& <CreateFile<SSTMeta> as Task<H, E>>::outcome(created) == expected
                &&& <AppendUpload<ImportFile<H>, E> as Task<H, E>>::outcome(created) == expected
            },
            Err(e) => {
                let expected = Err::<ImportFileView<H>, Error<E>>(e);
                &&& <OpenFile<SSTMeta> as Task<H, E>>::outcome(created) == expected
                &&& <CreateFile<SSTMeta> as Task<H, E>>::outcome(created) == expected
                &&& <AppendUpload<ImportFile<H>, E> as Task<H, E>>::outcome(created) == expected
            },
        },
{
}

/// The other results are their own content; that of a listing is the contents of its elements.
pub proof fn lemma_plain_outcomes<H, E>(
    dir: Result<ImportDir, Error<E>>,
    path: Result<ImportPath, Error<E>>,
    r: Result<(), Error<E>>,
    ssts: Result<Vec<SSTMeta>, Error<E>>,
)
    ensures
        <OpenDir as Task<H, E>>::outcome(dir) == dir,
        <DeleteFile as Task<H, E>>::outcome(path) == path,
        <DeleteUpload as Task<H, E>>::outcome(r) == r,
        <IngestFile as Task<H, E>>::outcome(r) == r,
        <ListDir as Task<H, E>>::outcome(ssts) == listed_outcome(ssts),
        match (ssts, listed_outcome(ssts)) {
            (Ok(v), Ok(contents)) => {
                &&& contents.len() == v@.len()
                &&& forall|i: int| 0 <= i < v@.len() ==> #[trigger] contents[i] == v@[i]@
            },
            (Err(e), Err(f)) => e == f,
            _ => false,
        },
{
}

/// Setting up a directory clears the two subdirectories that it finds, `.temp` first, then creates
/// both. The first failure ends it.
pub proof fn lemma_open_dir_asks<H, E>(dir: ImportDir, e: E)
    ensures
        ({
            let s0 = open_step::<H, E>(dir, OpenPhase::CheckingTemp);
            let found0 = answered::<H, E, OpenDir>(s0, Event::Found(true));
            let s1 = answered::<H, E, OpenDir>(s0, Event::Found(false));
            let found1 = answered::<H, E, OpenDir>(s1, Event::Found(true));
            let s2 = answered::<H, E, OpenDir>(s1, Event::Found(false));
            let s3 = answered::<H, E, OpenDir>(s2, Event::Done(Ok(())));
            let end = answered::<H, E, OpenDir>(s3, Event::Done(Ok(())));
            let failed = Err::<ImportDir, Error<E>>(Error::Io(e));
            &&& asks(s0, Action::Exists(dir.temp_dir))
            &&& asks(found0, Action::RemoveDirAll(dir.temp_dir))
            &&& ends_with(answered::<H, E, OpenDir>(found0, Event::Done(Err(e))), failed)
            &&& answered::<H, E, OpenDir>(found0, Event::Done(Ok(()))) == s1
            &&& asks(s1, Action::Exists(dir.clone_dir))
            &&& asks(found1, Action::RemoveDirAll(dir.clone_dir))
            &&& ends_with(answered::<H, E, OpenDir>(found1, Event::Done(Err(e))), failed)
            &&& answered::<H, E, OpenDir>(found1, Event::Done(Ok(()))) == s2
            &&& asks(s2, Action::CreateDirAll(dir.temp_dir))
            &&& ends_with(answered::<H, E, OpenDir>(s2, Event::Done(Err(e))), failed)
            &&& asks(s3, Action::CreateDirAll(dir.clone_dir))
            &&& ends_with(answered::<H, E, OpenDir>(s3, Event::Done(Err(e))), failed)
            &&& ends_with(end, Ok(dir))
        }),
{
}

/// Deleting a file looks for it at each of its paths and removes it where it is found: first the
/// saved file, then the temporary one, then the copy. The first failure ends it.
pub proof fn lemma_delete_asks<H, E>(path: ImportPath, e: E)
    ensures
        ({
            let s0 = delete_step::<H, E>(path, DeletePhase::CheckingSave);
            let found0 = answered::<H, E, DeleteFile>(s0, Event::Found(true));
            let s1 = answered::<H, E, DeleteFile>(s0, Event::Found(false));
            let found1 = answered::<H, E, DeleteFile>(s1, Event::Found(true));
            let s2 = answered::<H, E, DeleteFile>(s1, Event::Found(false));
            let found2 = answered::<H, E, DeleteFile>(s2, Event::Found(true));
            let end = answered::<H, E, DeleteFile>(s2, Event::Found(false));
            let failed = Err::<ImportPath, Error<E>>(Error::Io(e));
            &&& asks(s0, Action::Exists(path.save))
            &&& asks(found0, Action::RemoveFile(path.save))
            &&& ends_with(answered::<H, E, DeleteFile>(found0, Event::Done(Err(e))), failed)
            &&& answered::<H, E, DeleteFile>(found0, Event::Done(Ok(()))) == s1
            &&& asks(s1, Action::Exists(path.temp))
            &&& asks(found1, Action::RemoveFile(path.temp))
            &&& ends_with(answered::<H, E, DeleteFile>(found1, Event::Done(Err(e))), failed)
            &&& answered::<H, E, DeleteFile>(found1, Event::Done(Ok(()))) == s2
            &&& asks(s2, Action::Exists(path.clone))
            &&& asks(found2, Action::RemoveFile(path.clone))
            &&& ends_with(answered::<H, E, DeleteFile>(found2, Event::Done(Err(e))), failed)
            &&& answered::<H, E, DeleteFile>(found2, Event::Done(Ok(()))) == end
            &&& ends_with(end, Ok(path))
        }),
{
}

/// Deleting a file through an importer asks for the same, and returns only whether it succeeds.
pub proof fn lemma_delete_upload_asks<H, E>(path: ImportPath, e: E)
    ensures
        ({
            let s0 = delete_upload_step(delete_step::<H, E>(path, DeletePhase::CheckingSave));
            let found0 = answered::<H, E, DeleteUpload>(s0, Event::Found(true));
            let s1 = answered::<H, E, DeleteUpload>(s0, Event::Found(false));
            let found1 = answered::<H, E, DeleteUpload>(s1, Event::Found(true));
            let s2 = answered::<H, E, DeleteUpload>(s1, Event::Found(false));
            let found2 = answered::<H, E, DeleteUpload>(s2, Event::Found(true));
            let end = answered::<H, E, DeleteUpload>(s2, Event::Found(false));
            let failed = Err::<(), Error<E>>(Error::Io(e));
            &&& asks(s0, Action::Exists(path.save))
            &&& asks(found0, Action::RemoveFile(path.save))
            &&& ends_with(answered::<H, E, DeleteUpload>(found0, Event::Done(Err(e))), failed)
            &&& answered::<H, E, DeleteUpload>(found0, Event::Done(Ok(()))) == s1
            &&& asks(s1, Action::Exists(path.temp))
            &&& asks(found1, Action::RemoveFile(path.temp))
            &&& ends_with(answered::<H, E, DeleteUpload>(found1, Event::Done(Err(e))), failed)
            &&& answered::<H, E, DeleteUpload>(found1, Event::Done(Ok(()))) == s2
            &&& asks(s2, Action::Exists(path.clone))
            &&& asks(found2, Action::RemoveFile(path.clone))
            &&& ends_with(answered::<H, E, DeleteUpload>(found2, Event::Done(Err(e))), failed)
            &&& answered::<H, E, DeleteUpload>(found2, Event::Done(Ok(()))) == end
            &&& ends_with(end, Ok(()))
        }),
{
}

/// Ingesting a file has the saved file copied; then the copy held against the announced column
/// family, length and checksum; then the column family looked up; and only then the copy moved into
/// it. The first failure ends it, so that nothing is ingested that was not found to be right.
pub proof fn lemma_ingest_asks<H, E>(file: IngestFile, e: E)
    ensures
        ({
            let s0 = ingest_step::<H, E>(file, IngestPhase::Preparing);
            let s1 = answered::<H, E, IngestFile>(s0, Event::Done(Ok(())));
            let s2 = answered::<H, E, IngestFile>(s1, Event::Done(Ok(())));
            let s3 = answered::<H, E, IngestFile>(s2, Event::Done(Ok(())));
            let end = answered::<H, E, IngestFile>(s3, Event::Done(Ok(())));
            let failed = Err::<(), Error<E>>(Error::Io(e));
            &&& asks(s0, Action::PrepareSst(file.path.save, file.path.clone))
            &&& ends_with(answered::<H, E, IngestFile>(s0, Event::Done(Err(e))), failed)
            &&& asks(
                s1,
                Action::ValidateSst {
                    cf_name: file.cf_name,
                    path: file.path.clone,
                    length: file.length,
                    crc32: file.crc32,
                },
            )
            &&& ends_with(answered::<H, E, IngestFile>(s1, Event::Done(Err(e))), failed)
            &&& asks(s2, Action::FindColumnFamily(file.cf_name))
            &&& ends_with(answered::<H, E, IngestFile>(s2, Event::Done(Err(e))), failed)
            &&& asks(
                s3,
                Action::IngestSst {
                    cf_name: file.cf_name,
                    path: file.path.clone,
                    move_files: true,
                },
            )
            &&& ends_with(answered::<H, E, IngestFile>(s3, Event::Done(Err(e))), failed)
            &&& ends_with(end, Ok(()))
        }),
{
}

/// What is announced of a file that is ingested is what its metadata says.
pub proof fn lemma_ingests(file: IngestFile, meta: SSTMeta, path: ImportPath)
    ensures
        ingests(file, meta@, path) <==> {
            &&& file.path == path
            &&& file.cf_name@ == meta.cf_name@
            &&& file.length == meta.length
            &&& file.crc32 == meta.crc32
        },
{
}

/// A file that has just been created: open, with nothing appended to it.
pub open spec fn is_fresh<H>(
    file: ImportFileView<H>,
    meta: SSTMetaView,
    path: ImportPath,
    handle: H,
) -> bool {
    &&& file.meta == meta
    &&& file.path == path
    &&& file.file == Some(handle)
    &&& file.written.len() == 0
}

/// Creating a file creates it at its temporary path.
pub proof fn lemma_create_file_asks<H, E>(meta: SSTMetaView, path: ImportPath, handle: H, e: E)
    ensures
        ({
            let s0 = create_file_start::<H, E>(meta, path);
            let opened = answered::<H, E, OpenFile<SSTMeta>>(s0, Event::Opened(Ok(handle)));
            &&& asks(s0, Action::CreateNew(path.temp))
            &&& opened matches Step::Return(Ok(file)) && is_fresh(file, meta, path, handle)
            &&& ends_with(
                answered::<H, E, OpenFile<SSTMeta>>(s0, Event::Opened(Err(e))),
                Err(Error::Io(e)),
            )
        }),
{
}

/// Creating a file in a directory first looks whether it has been uploaded before.
pub proof fn lemma_create_asks<H, E>(meta: SSTMetaView, path: ImportPath, handle: H, e: E)
    ensures
        ({
            let s0 = create_start::<H, E>(meta, path);
            let s1 = answered::<H, E, CreateFile<SSTMeta>>(s0, Event::Found(false));
            let opened = answered::<H, E, CreateFile<SSTMeta>>(s1, Event::Opened(Ok(handle)));
            &&& asks(s0, Action::Exists(path.save))
            &&& ends_with(
                answered::<H, E, CreateFile<SSTMeta>>(s0, Event::Found(true)),
                Err(Error::FileExists(path.save)),
            )
            &&& asks(s1, Action::CreateNew(path.temp))
            &&& opened matches Step::Return(Ok(file)) && is_fresh(file, meta, path, handle)
            &&& ends_with(
                answered::<H, E, CreateFile<SSTMeta>>(s1, Event::Opened(Err(e))),
                Err(Error::Io(e)),
            )
        }),
{
}

/// Whether a file is another with this handle and these bytes.
pub open spec fn is_file<H>(
    file: ImportFileView<H>,
    other: ImportFileView<H>,
    handle: Option<H>,
    written: Seq<u8>,
) -> bool {
    &&& file.meta == other.meta
    &&& file.path == other.path
    &&& file.file == handle
    &&& file.written == written
}

/// Appending writes the bytes to the open file. Only when all of them were written do they count.
pub proof fn lemma_append_asks<H, E>(
    file: ImportFileView<H>,
    data: Arc<Vec<u8>>,
    open: H,
    handle: H,
    e: E,
)
    requires
        file.file == Some(open),
    ensures
        ({
            let s0 = append_start::<H, E>(file, data);
            let written = answered::<H, E, AppendFile<ImportFile<H>>>(
                s0,
                Event::Written(handle, Ok(())),
            );
            let failed = answered::<H, E, AppendFile<ImportFile<H>>>(
                s0,
                Event::Written(handle, Err(e)),
            );
            &&& asks(s0, Action::WriteAll(open, data))
            &&& written matches Step::Return((f, r)) && r is Ok && is_file(
                f,
                file,
                Some(handle),
                file.written + data@,
            )
            &&& failed matches Step::Return((f, r)) && r == Err::<(), Error<E>>(Error::Io(e))
                && is_file(f, file, Some(handle), file.written)
        }),
{
}

/// What is wrong with a file whose checksum or length is not the announced one.
pub proof fn lemma_checks<E>(path: FilePath, found: u32, expect: u32, length: u64, announced: u64)
    ensures
        crc32_check::<E>(path, found, expect) is Ok <==> found == expect,
        crc32_check::<E>(path, found, expect) matches Err(e) ==> e == Error::<E>::FileCorrupted(
            path,
            Corruption::Crc32(found, expect),
        ),
        length_check::<E>(path, length, announced) is Ok <==> length == announced,
        length_check::<E>(path, length, announced) matches Err(e) ==> e == Error::<
            E,
        >::FileCorrupted(path, Corruption::Length(length, announced)),
{
}

/// The error about a file whose checksum is not the announced one.
pub open spec fn wrong_crc32<H, E>(file: ImportFileView<H>) -> Result<(), Error<E>> {
    Err(
        Error::FileCorrupted(
            file.path.temp,
            Corruption::Crc32(crc32_ieee(file.written), file.meta.crc32),
        ),
    )
}

/// The error about a file whose length is not the announced one.
pub open spec fn wrong_length<H, E>(file: ImportFileView<H>, length: u64) -> Result<(), Error<E>> {
    Err(Error::FileCorrupted(file.path.temp, Corruption::Length(length, file.meta.length)))
}

/// Validating a file compares the checksum of what was appended with the announced one, then the
/// length of the file. The file stays open.
pub proof fn lemma_validate_asks<H, E>(
    file: ImportFileView<H>,
    open: H,
    handle: H,
    length: u64,
    e: E,
)
    requires
        file.file == Some(open),
    ensures
        file.crc32_matches() <==> crc32_ieee(file.written) == file.meta.crc32,
        ({
            let s0 = validate_start::<H, E>(file);
            let measured = answered::<H, E, ValidateFile<ImportFile<H>>>(
                s0,
                Event::Measured(handle, Ok(length)),
            );
            let failed = answered::<H, E, ValidateFile<ImportFile<H>>>(
                s0,
                Event::Measured(handle, Err(e)),
            );
            if crc32_ieee(file.written) != file.meta.crc32 {
                ends_with(s0, (file, wrong_crc32(file)))
            } else {
                &&& asks(s0, Action::Length(open))
                &&& measured matches Step::Return((f, r)) && is_file(
                    f,
                    file,
                    Some(handle),
                    file.written,
                ) && (if length == file.meta.length {
                    r is Ok
                } else {
                    r == wrong_length::<H, E>(file, length)
                })
                &&& failed matches Step::Return((f, r)) && is_file(
                    f,
                    file,
                    Some(handle),
                    file.written,
                ) && r == Err::<(), Error<E>>(Error::Io(e))
            }
        }),
{
}

/// Finishing a file validates it, brings it to the disk, looks whether there is a file at the final
/// path, and moves it there only where there is none. The first thing that goes wrong ends it.
pub proof fn lemma_finish_asks<H, E>(
    file: ImportFileView<H>,
    open: H,
    handle: H,
    length: u64,
    e: E,
)
    requires
        file.file == Some(open),
    ensures
        ({
            let s0 = finish_start::<H, E>(file);
            let s1 = answered::<H, E, FinishFile<ImportFile<H>>>(
                s0,
                Event::Measured(handle, Ok(length)),
            );
            let unmeasured = answered::<H, E, FinishFile<ImportFile<H>>>(
                s0,
                Event::Measured(handle, Err(e)),
            );
            let s2 = answered::<H, E, FinishFile<ImportFile<H>>>(s1, Event::Done(Ok(())));
            let unsynced = answered::<H, E, FinishFile<ImportFile<H>>>(s1, Event::Done(Err(e)));
            let s3 = answered::<H, E, FinishFile<ImportFile<H>>>(s2, Event::Found(false));
            let taken = answered::<H, E, FinishFile<ImportFile<H>>>(s2, Event::Found(true));
            let end = answered::<H, E, FinishFile<ImportFile<H>>>(s3, Event::Done(Ok(())));
            let unmoved = answered::<H, E, FinishFile<ImportFile<H>>>(s3, Event::Done(Err(e)));
            if crc32_ieee(file.written) != file.meta.crc32 {
                ends_with(s0, (file, wrong_crc32(file)))
            } else {
                &&& asks(s0, Action::Length(open))
                &&& unmeasured matches Step::Return((f, r)) && is_file(
                    f,
                    file,
                    Some(handle),
                    file.written,
                ) && r == Err::<(), Error<E>>(Error::Io(e))
                &&& if length != file.meta.length {
                    s1 matches Step::Return((f, r)) && is_file(f, file, Some(handle), file.written)
                        && r == wrong_length::<H, E>(file, length)
                } else {
                    &&& asks(s1, Action::SyncAll(handle))
                    &&& unsynced matches Step::Return((f, r)) && is_file(
                        f,
                        file,
                        None,
                        file.written,
                    ) && r == Err::<(), Error<E>>(Error::Io(e))
                    &&& asks(s2, Action::Exists(file.path.save))
                    &&& taken matches Step::Return((f, r)) && is_file(f, file, None, file.written)
                        && r == Err::<(), Error<E>>(Error::FileExists(file.path.save))
                    &&& asks(s3, Action::Rename(file.path.temp, file.path.save))
                    &&& unmoved matches Step::Return((f, r)) && is_file(f, file, None, file.written)
                        && r == Err::<(), Error<E>>(Error::Io(e))
                    &&& end matches Step::Return((f, r)) && is_file(f, file, None, file.written)
                        && r is Ok
                }
            }
        }),
{
}

/// Giving up a file closes it, looks whether it is still at its temporary path, and removes it
/// there.
pub proof fn lemma_cleanup_asks<H, E>(file: ImportFileView<H>, closed: Result<(), E>, e: E)
    ensures
        ({
            let s0 = cleanup_start::<H, E>(file);
            let s1 = if file.file is Some {
                answered::<H, E, CleanupFile<ImportFile<H>>>(s0, Event::Done(closed))
            } else {
                s0
            };
            let gone = answered::<H, E, CleanupFile<ImportFile<H>>>(s1, Event::Found(false));
            let s2 = answered::<H, E, CleanupFile<ImportFile<H>>>(s1, Event::Found(true));
            let end = answered::<H, E, CleanupFile<ImportFile<H>>>(s2, Event::Done(Ok(())));
            let failed = answered::<H, E, CleanupFile<ImportFile<H>>>(s2, Event::Done(Err(e)));
            &&& file.file matches Some(open) ==> asks(s0, Action::Close(open))
            &&& asks(s1, Action::Exists(file.path.temp))
            &&& gone matches Step::Return((f, r)) && is_file(f, file, None, file.written) && r is Ok
            &&& asks(s2, Action::RemoveFile(file.path.temp))
            &&& end matches Step::Return((f, r)) && is_file(f, file, None, file.written) && r is Ok
            &&& failed matches Step::Return((f, r)) && is_file(f, file, None, file.written) && r
                == Err::<(), Error<E>>(Error::Io(e))
        }),
{
}

/// Whether an operation goes on to remove what is at a path, if anything is, and then returns this
/// result, whatever comes of that.
pub open spec fn gives_up<H, E, T: Task<H, E>>(
    step: Step<H, T::State, T::Outcome>,
    temp: FilePath,
    out: T::Outcome,
) -> bool {
    let found = answered::<H, E, T>(step, Event::Found(true));
    &&& asks(step, Action::Exists(temp))
    &&& ends_with(answered::<H, E, T>(step, Event::Found(false)), out)
    &&& asks(found, Action::RemoveFile(temp))
    &&& forall|r: Result<(), E>| ends_with(#[trigger] answered::<H, E, T>(found, Event::Done(r)), out)
}

/// Whether an operation goes on to close a file, and then to give it up.
pub open spec fn closes_and_gives_up<H, E, T: Task<H, E>>(
    step: Step<H, T::State, T::Outcome>,
    open: H,
    temp: FilePath,
    out: T::Outcome,
) -> bool {
    &&& asks(step, Action::Close(open))
    &&& forall|r: Result<(), E>|
        gives_up::<H, E, T>(#[trigger] answered::<H, E, T>(step, Event::Done(r)), temp, out)
}

/// Appending to an upload hands the file back with the bytes. Where they could not be written, the
/// file is given up, and the error is that of the writing.
pub proof fn lemma_append_upload_asks<H, E>(
    file: ImportFileView<H>,
    data: Arc<Vec<u8>>,
    open: H,
    handle: H,
    e: E,
)
    requires
        file.file == Some(open),
    ensures
        ({
            let s0 = append_upload_start::<H, E>(file, data);
            let written = answered::<H, E, AppendUpload<ImportFile<H>, E>>(
                s0,
                Event::Written(handle, Ok(())),
            );
            let failed = answered::<H, E, AppendUpload<ImportFile<H>, E>>(
                s0,
                Event::Written(handle, Err(e)),
            );
            &&& asks(s0, Action::WriteAll(open, data))
            &&& written matches Step::Return(Ok(f)) && is_file(
                f,
                file,
                Some(handle),
                file.written + data@,
            )
            &&& closes_and_gives_up::<H, E, AppendUpload<ImportFile<H>, E>>(
                failed,
                handle,
                file.path.temp,
                Err(Error::Io(e)),
            )
        }),
{
}

/// Ending an upload finishes its file. However that ends, what is left at the temporary path is
/// given up, and the result is that of the finishing.
pub proof fn lemma_finish_upload_asks<H, E>(
    file: ImportFileView<H>,
    open: H,
    handle: H,
    length: u64,
    e: E,
)
    requires
        file.file == Some(open),
    ensures
        ({
            let temp = file.path.temp;
            let s0 = finish_upload_start::<H, E>(file);
            let s1 = answered::<H, E, FinishUpload<ImportFile<H>, E>>(
                s0,
                Event::Measured(handle, Ok(length)),
            );
            let unmeasured = answered::<H, E, FinishUpload<ImportFile<H>, E>>(
                s0,
                Event::Measured(handle, Err(e)),
            );
            let s2 = answered::<H, E, FinishUpload<ImportFile<H>, E>>(s1, Event::Done(Ok(())));
            let unsynced = answered::<H, E, FinishUpload<ImportFile<H>, E>>(
                s1,
                Event::Done(Err(e)),
            );
            let s3 = answered::<H, E, FinishUpload<ImportFile<H>, E>>(s2, Event::Found(false));
            let taken = answered::<H, E, FinishUpload<ImportFile<H>, E>>(s2, Event::Found(true));
            let end = answered::<H, E, FinishUpload<ImportFile<H>, E>>(s3, Event::Done(Ok(())));
            let unmoved = answered::<H, E, FinishUpload<ImportFile<H>, E>>(s3, Event::Done(Err(e)));
            if crc32_ieee(file.written) != file.meta.crc32 {
                closes_and_gives_up::<H, E, FinishUpload<ImportFile<H>, E>>(
                    s0,
                    open,
                    temp,
                    wrong_crc32(file),
                )
            } else {
                &&& asks(s0, Action::Length(open))
                &&& closes_and_gives_up::<H, E, FinishUpload<ImportFile<H>, E>>(
                    unmeasured,
                    handle,
                    temp,
                    Err(Error::Io(e)),
                )
                &&& if length != file.meta.length {
                    closes_and_gives_up::<H, E, FinishUpload<ImportFile<H>, E>>(
                        s1,
                        handle,
                        temp,
                        wrong_length(file, length),
                    )
                } else {
                    &&& asks(s1, Action::SyncAll(handle))
                    &&& gives_up::<H, E, FinishUpload<ImportFile<H>, E>>(
                        unsynced,
                        temp,
                        Err(Error::Io(e)),
                    )
                    &&& asks(s2, Action::Exists(file.path.save))
                    &&& gives_up::<H, E, FinishUpload<ImportFile<H>, E>>(
                        taken,
                        temp,
                        Err(Error::FileExists(file.path.save)),
                    )
                    &&& asks(s3, Action::Rename(temp, file.path.save))
                    &&& gives_up::<H, E, FinishUpload<ImportFile<H>, E>>(
                        unmoved,
                        temp,
                        Err(Error::Io(e)),
                    )
                    &&& gives_up::<H, E, FinishUpload<ImportFile<H>, E>>(end, temp, Ok(()))
                }
            }
        }),
{
}

/// Tokens count up by one, and start anew behind the largest.
pub proof fn lemma_token_after(token: Token)
    ensures
        token < usize::MAX ==> token_after(token) == token + 1,
        token == usize::MAX ==> token_after(token) == 0,
{
}

/// An importer is well-formed exactly where every upload has its file open.
pub proof fn lemma_importer_wf<H>(importer: SSTImporterView<H>)
    ensures
        importer.wf() <==> forall|token: Token| #[trigger]
            importer.files.contains_key(token) ==> importer.files[token].file is Some,
{
}

/// Whether an entry is a file whose name carries this metadata.
pub open spec fn entry_carries<E>(entry: DirEntry<E>, sst: SSTMetaView) -> bool {
    entry matches DirEntry::Entry(path, Ok(true)) && path_meta::<E>(path) == Ok::<
        SSTMetaView,
        Error<E>,
    >(sst)
}

/// Whether these are the places of all entries that are files with such a name, in order, and these
/// the metadata in their names.
pub open spec fn are_places<E>(
    entries: Seq<DirEntry<E>>,
    places: Seq<int>,
    ssts: Seq<SSTMetaView>,
) -> bool {
    &&& places.len() == ssts.len()
    &&& forall|k: int|
        0 <= k < places.len() ==> 0 <= #[trigger] places[k] < entries.len() && entry_carries(
            entries[places[k]],
            ssts[k],
        )
    &&& forall|k: int, l: int|
        0 <= k < l < places.len() ==> #[trigger] places[k] < #[trigger] places[l]
    &&& forall|i: int, sst: SSTMetaView|
        0 <= i < entries.len() && #[trigger] entry_carries(entries[i], sst) ==> places.contains(i)
}

/// Whether an entry could be read.
pub open spec fn is_readable<E>(entry: DirEntry<E>) -> bool {
    entry matches DirEntry::Entry(_, Ok(_))
}

/// Whether an entry could not be read, and why.
pub open spec fn is_unreadable<E>(entry: DirEntry<E>, e: E) -> bool {
    ||| entry matches DirEntry::Unreadable(f) && f == e
    ||| entry matches DirEntry::Entry(_, Err(f)) && f == e
}

/// A listing that could be read gives the metadata of all of its files with such a name, in order,
/// and nothing else. Otherwise the error is that of the first entry that could not be read.
pub proof fn lemma_listed<E>(entries: Seq<DirEntry<E>>)
    ensures
        match listed(entries) {
            Ok(ssts) => {
                &&& forall|i: int| 0 <= i < entries.len() ==> is_readable(#[trigger] entries[i])
                &&& exists|places: Seq<int>| #[trigger] are_places(entries, places, ssts)
            },
            Err(e) => exists|k: int, f: E|
                0 <= k < entries.len() && #[trigger] is_unreadable(entries[k], f) && e
                    == Error::<E>::Io(f) && forall|i: int|
                    0 <= i < k ==> is_readable(#[trigger] entries[i]),
        },
    decreases entries.len(),
{
    if entries.len() == 0 {
        assert(are_places(entries, Seq::<int>::empty(), listed(entries)->Ok_0));
    } else {
        let rest = entries.drop_last();
        let n = entries.len() - 1;
        lemma_listed(rest);
        assert forall|i: int| 0 <= i < n implies #[trigger] rest[i] == entries[i] by {}
        match listed(rest) {
            Err(e) => {
                let (k, f) = choose|k: int, f: E|
                    0 <= k < rest.len() && #[trigger] is_unreadable(rest[k], f) && e
                        == Error::<E>::Io(f) && forall|i: int|
                        0 <= i < k ==> is_readable(#[trigger] rest[i]);
                assert(is_unreadable(entries[k], f));
                assert forall|i: int| 0 <= i < k implies is_readable(#[trigger] entries[i]) by {
                    assert(is_readable(rest[i]));
                }
            },
            Ok(before) => {
                let places = choose|places: Seq<int>| #[trigger] are_places(rest, places, before);
                assert forall|i: int| 0 <= i < n implies is_readable(#[trigger] entries[i]) by {
                    assert(is_readable(rest[i]));
                }
                match entries[n] {
                    DirEntry::Unreadable(f) => {
                        assert(is_unreadable(entries[n], f));
                    },
                    DirEntry::Entry(_, Err(f)) => {
                        assert(is_unreadable(entries[n], f));
                    },
                    DirEntry::Entry(path, Ok(is_file)) => {
                        let ssts = listed(entries)->Ok_0;
                        if is_file && path_meta::<E>(path) is Ok {
                            let sst = path_meta::<E>(path)->Ok_0;
                            let longer = places.push(n);
                            assert(entry_carries(entries[n], sst));
                            assert(ssts == before.push(sst));
                            assert forall|k: int| 0 <= k < longer.len() implies 0
                                <= #[trigger] longer[k] < entries.len() && entry_carries(
                                entries[longer[k]],
                                ssts[k],
                            ) by {
                                if k < places.len() {
                                    assert(longer[k] == places[k]);
                                    assert(entry_carries(rest[places[k]], before[k]));
                                }
                            }
                            assert forall|k: int, l: int|
                                0 <= k < l < longer.len() implies #[trigger] longer[k]
                                < #[trigger] longer[l] by {
                                assert(longer[k] == places[k]);
                                if l < places.len() {
                                    assert(longer[l] == places[l]);
                                }
                            }
                            assert forall|i: int, s: SSTMetaView|
                                0 <= i < entries.len() && #[trigger] entry_carries(
                                    entries[i],
                                    s,
                                ) implies longer.contains(i) by {
                                if i < n {
                                    assert(entry_carries(rest[i], s));
                                    let k = choose|k: int| 0 <= k < places.len() && places[k] == i;
                                    assert(longer[k] == i);
                                } else {
                                    assert(longer[places.len() as int] == i);
                                }
                            }
                            assert(are_places(entries, longer, ssts));
                        } else {
                            assert forall|i: int, s: SSTMetaView|
                                0 <= i < entries.len() && #[trigger] entry_carries(
                                    entries[i],
                                    s,
                                ) implies places.contains(i) by {
                                if i < n {
                                    assert(entry_carries(rest[i], s));
                                }
                            }
                            assert forall|k: int| 0 <= k < places.len() implies 0
                                <= #[trigger] places[k] < entries.len() && entry_carries(
                                entries[places[k]],
                                ssts[k],
                            ) by {
                                assert(entry_carries(rest[places[k]], before[k]));
                            }
                            assert(are_places(entries, places, ssts));
                        }
                    },
                }
            },
        }
    }
}

/// The contents of a list of metadata.
pub open spec fn contents(ssts: Seq<SSTMeta>) -> Seq<SSTMetaView> {
    Seq::new(ssts.len(), |i: int| ssts[i]@)
}

/// Listing a directory reads it, however many entries it has. What is returned is the metadata of
/// every entry that is a file with such a name, in order, and nothing else; or the error of the
/// first entry that could not be read; or that of reading the directory.
pub proof fn lemma_list_dir<H, E>(
    entries: Vec<DirEntry<E>>,
    e: E,
    out: Result<Vec<SSTMeta>, Error<E>>,
)
    requires
        ends_with(
            <ListDir as Task<H, E>>::after(
                <ListDir as Task<H, E>>::state(ListDir),
                Event::Listed(Ok(entries)),
            ),
            <ListDir as Task<H, E>>::outcome(out),
        ),
    ensures
        match out {
            Ok(ssts) => {
                &&& forall|i: int| 0 <= i < entries@.len() ==> is_readable(#[trigger] entries@[i])
                &&& exists|places: Seq<int>| #[trigger]
                    are_places(entries@, places, contents(ssts@))
            },
            Err(e) => exists|k: int, f: E|
                0 <= k < entries@.len() && #[trigger] is_unreadable(entries@[k], f) && e
                    == Error::<E>::Io(f) && forall|i: int|
                    0 <= i < k ==> is_readable(#[trigger] entries@[i]),
        },
        <ListDir as Task<H, E>>::after(
            <ListDir as Task<H, E>>::state(ListDir),
            Event::Listed(Err(e)),
        ) == Step::<H, ListDir, Result<Seq<SSTMetaView>, Error<E>>>::Return(Err(Error::Io(e))),
{
    lemma_list_entries(entries, out);
}

/// Reading the entries of a directory gives the same.
pub proof fn lemma_list_entries<E>(
    entries: Vec<DirEntry<E>>,
    out: Result<Vec<SSTMeta>, Error<E>>,
)
    requires
        listed_outcome(out) == listed(entries@),
    ensures
        match out {
            Ok(ssts) => {
                &&& forall|i: int| 0 <= i < entries@.len() ==> is_readable(#[trigger] entries@[i])
                &&& exists|places: Seq<int>| #[trigger]
                    are_places(entries@, places, contents(ssts@))
            },
            Err(e) => exists|k: int, f: E|
                0 <= k < entries@.len() && #[trigger] is_unreadable(entries@[k], f) && e
                    == Error::<E>::Io(f) && forall|i: int|
                    0 <= i < k ==> is_readable(#[trigger] entries@[i]),
        },
{
    lemma_listed(entries@);
    if out is Ok {
        assert(contents(out->Ok_0@) =~= listed(entries@)->Ok_0);
    }
}

} // verus!
