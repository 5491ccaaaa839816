//! The directory in which files are uploaded and wait to be ingested.
use crate::error::Error;
use crate::import_file::{
    created_outcome, ImportFile, ImportFileView, ImportPath, OpenFile,
};
use crate::meta::{
    identity_of, lemma_path_round_trip, nameable, path_meta, path_to_sst_meta, sst_file_name,
    sst_meta_to_path, sst_path, SSTMeta, SSTMetaView,
};
use crate::path::{
    dir_prefix, is_below, is_component, is_separator, joined, lemma_joined_file_name, FilePath,
};
use crate::task::{expects_reply, step_content, Action, DirEntry, Event, Reply, Step, Task};
use vstd::pervasive::unreached;
use vstd::prelude::*;
use vstd::utf8::{encode_utf8, is_ascii_chars, is_ascii_chars_encode_utf8};

verus! {

broadcast use vstd::string::group_string_axioms;

/// The name of the directory for files that are being uploaded.
pub const TEMP_DIR: &'static str = ".temp";

/// The name of the directory for files that are going to be ingested.
pub const CLONE_DIR: &'static str = ".clone";

/// The directory of imported files: those that have been uploaded are in the root.
#[derive(Debug, PartialEq, Eq)]
pub struct ImportDir {
    pub root_dir: FilePath,
    pub temp_dir: FilePath,
    pub clone_dir: FilePath,
}

/// Whether a directory has its two subdirectories where `ImportDir::new` puts them.
pub open spec fn is_import_dir(dir: ImportDir, root: FilePath) -> bool {
    &&& dir.root_dir == root
    &&& dir.temp_dir@ == joined(root@, encode_utf8(TEMP_DIR@))
    &&& dir.clone_dir@ == joined(root@, encode_utf8(CLONE_DIR@))
}

/// The stages of setting up an import directory.
#[derive(Debug, Clone, Copy, PartialEq, Eq, Structural)]
pub enum OpenPhase {
    CheckingTemp,
    RemovingTemp,
    CheckingClone,
    RemovingClone,
    CreatingTemp,
    CreatingClone,
}

/// An import directory that is being set up.
#[derive(Debug)]
pub struct OpenDir {
    pub dir: ImportDir,
    pub phase: OpenPhase,
}

/// The action that belongs to a stage of setting up an import directory.
pub open spec fn open_step<H, E>(dir: ImportDir, phase: OpenPhase) -> Step<
    H,
    OpenDir,
    Result<ImportDir, Error<E>>,
> {
    let action = match phase {
        OpenPhase::CheckingTemp => Action::Exists(dir.temp_dir),
        OpenPhase::RemovingTemp => Action::RemoveDirAll(dir.temp_dir),
        OpenPhase::CheckingClone => Action::Exists(dir.clone_dir),
        OpenPhase::RemovingClone => Action::RemoveDirAll(dir.clone_dir),
        OpenPhase::CreatingTemp => Action::CreateDirAll(dir.temp_dir),
        OpenPhase::CreatingClone => Action::CreateDirAll(dir.clone_dir),
    };
    Step::Do(action, OpenDir { dir, phase })
}

/// Makes the step of a stage of setting up an import directory.
fn open_dir_step<H, E>(dir: ImportDir, phase: OpenPhase) -> (step: Step<
    H,
    OpenDir,
    Result<ImportDir, Error<E>>,
>)
    ensures
        step == open_step::<H, E>(dir, phase),
{
    let action = match phase {
        OpenPhase::CheckingTemp => Action::Exists(dir.temp_dir.clone()),
        OpenPhase::RemovingTemp => Action::RemoveDirAll(dir.temp_dir.clone()),
        OpenPhase::CheckingClone => Action::Exists(dir.clone_dir.clone()),
        OpenPhase::RemovingClone => Action::RemoveDirAll(dir.clone_dir.clone()),
        OpenPhase::CreatingTemp => Action::CreateDirAll(dir.temp_dir.clone()),
        OpenPhase::CreatingClone => Action::CreateDirAll(dir.clone_dir.clone()),
    };
    Step::Do(action, OpenDir { dir, phase })
}

impl<H, E> Task<H, E> for OpenDir {
    type Out = Result<ImportDir, Error<E>>;

    type State = OpenDir;

    type Outcome = Result<ImportDir, Error<E>>;

    open spec fn state(self) -> OpenDir {
        self
    }

    open spec fn outcome(out: Self::Out) -> Self::Outcome {
        out
    }

    open spec fn awaits(state: OpenDir) -> Reply {
        match state.phase {
            OpenPhase::CheckingTemp | OpenPhase::CheckingClone => Reply::Found,
            _ => Reply::Done,
        }
    }

    open spec fn remaining(state: OpenDir) -> nat {
        match state.phase {
            OpenPhase::CheckingTemp => 6,
            OpenPhase::RemovingTemp => 5,
            OpenPhase::CheckingClone => 4,
            OpenPhase::RemovingClone => 3,
            OpenPhase::CreatingTemp => 2,
            OpenPhase::CreatingClone => 1,
        }
    }

    open spec fn after(state: OpenDir, event: Event<H, E>) -> Step<H, OpenDir, Self::Outcome> {
        match (state.phase, event) {
            (OpenPhase::CheckingTemp, Event::Found(true)) => open_step(
                state.dir,
                OpenPhase::RemovingTemp,
            ),
            (OpenPhase::CheckingTemp, Event::Found(false)) => open_step(
                state.dir,
                OpenPhase::CheckingClone,
            ),
            (OpenPhase::RemovingTemp, Event::Done(Ok(()))) => open_step(
                state.dir,
                OpenPhase::CheckingClone,
            ),
            (OpenPhase::CheckingClone, Event::Found(true)) => open_step(
                state.dir,
                OpenPhase::RemovingClone,
            ),
            (OpenPhase::CheckingClone, Event::Found(false)) => open_step(
                state.dir,
                OpenPhase::CreatingTemp,
            ),
            (OpenPhase::RemovingClone, Event::Done(Ok(()))) => open_step(
                state.dir,
                OpenPhase::CreatingTemp,
            ),
            (OpenPhase::CreatingTemp, Event::Done(Ok(()))) => open_step(
                state.dir,
                OpenPhase::CreatingClone,
            ),
            (OpenPhase::CreatingClone, Event::Done(Ok(()))) => Step::Return(Ok(state.dir)),
            (_, Event::Done(Err(e))) => Step::Return(Err(Error::Io(e))),
            _ => arbitrary(),
        }
    }

    fn next(self, event: Event<H, E>) -> (step: Step<H, Self, Self::Out>) {
        let phase = match (self.phase, event) {
            (OpenPhase::CheckingTemp, Event::Found(true)) => OpenPhase::RemovingTemp,
            (OpenPhase::CheckingTemp, Event::Found(false)) => OpenPhase::CheckingClone,
            (OpenPhase::RemovingTemp, Event::Done(Ok(()))) => OpenPhase::CheckingClone,
            (OpenPhase::CheckingClone, Event::Found(true)) => OpenPhase::RemovingClone,
            (OpenPhase::CheckingClone, Event::Found(false)) => OpenPhase::CreatingTemp,
            (OpenPhase::RemovingClone, Event::Done(Ok(()))) => OpenPhase::CreatingTemp,
            (OpenPhase::CreatingTemp, Event::Done(Ok(()))) => OpenPhase::CreatingClone,
            (OpenPhase::CreatingClone, Event::Done(Ok(()))) => return Step::Return(Ok(self.dir)),
            (_, Event::Done(Err(e))) => return Step::Return(Err(Error::Io(e))),
            _ => unreached(),
        };
        open_dir_step(self.dir, phase)
    }
}

/// A file that is being created in an import directory.
pub enum CreateFile<M> {
    /// It is being found out whether the file has been uploaded before.
    Checking(OpenFile<M>),
    /// The file is being created.
    Opening(OpenFile<M>),
}

/// What `ImportDir::create` begins with, when the paths of the file are known.
pub open spec fn create_start<H, E>(meta: SSTMetaView, path: ImportPath) -> Step<
    H,
    CreateFile<SSTMetaView>,
    Result<ImportFileView<H>, Error<E>>,
> {
    Step::Do(Action::Exists(path.save), CreateFile::Checking(OpenFile { meta, path }))
}

/// What comes next in creating a file in an import directory.
pub open spec fn create_after<H, E>(
    state: CreateFile<SSTMetaView>,
    event: Event<H, E>,
) -> Step<H, CreateFile<SSTMetaView>, Result<ImportFileView<H>, Error<E>>> {
    match (state, event) {
        (CreateFile::Checking(file), Event::Found(true)) => Step::Return(
            Err(Error::FileExists(file.path.save)),
        ),
        (CreateFile::Checking(file), Event::Found(false)) => Step::Do(
            Action::CreateNew(file.path.temp),
            CreateFile::Opening(file),
        ),
        (CreateFile::Opening(file), Event::Opened(Ok(handle))) => Step::Return(
            Ok(ImportFileView::fresh(file.meta, file.path, handle)),
        ),
        (CreateFile::Opening(file), Event::Opened(Err(e))) => Step::Return(Err(Error::Io(e))),
        _ => arbitrary(),
    }
}

impl<H, E> Task<H, E> for CreateFile<SSTMeta> {
    type Out = Result<ImportFile<H>, Error<E>>;

    type State = CreateFile<SSTMetaView>;

    type Outcome = Result<ImportFileView<H>, Error<E>>;

    open spec fn state(self) -> CreateFile<SSTMetaView> {
        match self {
            CreateFile::Checking(file) => CreateFile::Checking(
                OpenFile { meta: file.meta@, path: file.path },
            ),
            CreateFile::Opening(file) => CreateFile::Opening(
                OpenFile { meta: file.meta@, path: file.path },
            ),
        }
    }

    open spec fn outcome(out: Self::Out) -> Self::Outcome {
        created_outcome(out)
    }

    open spec fn awaits(state: Self::State) -> Reply {
        match state {
            CreateFile::Checking(_) => Reply::Found,
            CreateFile::Opening(_) => Reply::Opened,
        }
    }

    open spec fn remaining(state: Self::State) -> nat {
        match state {
            CreateFile::Checking(_) => 2,
            CreateFile::Opening(_) => 1,
        }
    }

    open spec fn after(state: Self::State, event: Event<H, E>) -> Step<
        H,
        Self::State,
        Self::Outcome,
    > {
        create_after(state, event)
    }

    fn next(self, event: Event<H, E>) -> (step: Step<H, Self, Self::Out>) {
        match self {
            CreateFile::Checking(file) => match event {
                Event::Found(true) => Step::Return(Err(Error::FileExists(file.path.save))),
                Event::Found(false) => match ImportFile::<H>::create::<E>(file.meta, file.path) {
                    Step::Do(action, file) => Step::Do(action, CreateFile::Opening(file)),
                    Step::Return(out) => Step::Return(out),
                },
                _ => unreached(),
            },
            CreateFile::Opening(file) => match file.next(event) {
                Step::Do(action, file) => Step::Do(action, CreateFile::Opening(file)),
                Step::Return(out) => Step::Return(out),
            },
        }
    }
}

/// The stages of deleting a file.
#[derive(Debug, Clone, Copy, PartialEq, Eq, Structural)]
pub enum DeletePhase {
    CheckingSave,
    RemovingSave,
    CheckingTemp,
    RemovingTemp,
    CheckingClone,
    RemovingClone,
}

/// A file that is being deleted.
pub struct DeleteFile {
    pub path: ImportPath,
    pub phase: DeletePhase,
}

/// The action that belongs to a stage of deleting a file.
pub open spec fn delete_step<H, E>(path: ImportPath, phase: DeletePhase) -> Step<
    H,
    DeleteFile,
    Result<ImportPath, Error<E>>,
> {
    let action = match phase {
        DeletePhase::CheckingSave => Action::Exists(path.save),
        DeletePhase::RemovingSave => Action::RemoveFile(path.save),
        DeletePhase::CheckingTemp => Action::Exists(path.temp),
        DeletePhase::RemovingTemp => Action::RemoveFile(path.temp),
        DeletePhase::CheckingClone => Action::Exists(path.clone),
        DeletePhase::RemovingClone => Action::RemoveFile(path.clone),
    };
    Step::Do(action, DeleteFile { path, phase })
}

/// Makes the step of a stage of deleting a file.
fn delete_file_step<H, E>(path: ImportPath, phase: DeletePhase) -> (step: Step<
    H,
    DeleteFile,
    Result<ImportPath, Error<E>>,
>)
    ensures
        step == delete_step::<H, E>(path, phase),
{
    let action = match phase {
        DeletePhase::CheckingSave => Action::Exists(path.save.clone()),
        DeletePhase::RemovingSave => Action::RemoveFile(path.save.clone()),
        DeletePhase::CheckingTemp => Action::Exists(path.temp.clone()),
        DeletePhase::RemovingTemp => Action::RemoveFile(path.temp.clone()),
        DeletePhase::CheckingClone => Action::Exists(path.clone.clone()),
        DeletePhase::RemovingClone => Action::RemoveFile(path.clone.clone()),
    };
    Step::Do(action, DeleteFile { path, phase })
}

impl<H, E> Task<H, E> for DeleteFile {
    type Out = Result<ImportPath, Error<E>>;

    type State = DeleteFile;

    type Outcome = Result<ImportPath, Error<E>>;

    open spec fn state(self) -> DeleteFile {
        self
    }

    open spec fn outcome(out: Self::Out) -> Self::Outcome {
        out
    }

    open spec fn awaits(state: DeleteFile) -> Reply {
        match state.phase {
            DeletePhase::CheckingSave | DeletePhase::CheckingTemp | DeletePhase::CheckingClone => {
                Reply::Found
            },
            _ => Reply::Done,
        }
    }

    open spec fn remaining(state: DeleteFile) -> nat {
        match state.phase {
            DeletePhase::CheckingSave => 6,
            DeletePhase::RemovingSave => 5,
            DeletePhase::CheckingTemp => 4,
            DeletePhase::RemovingTemp => 3,
            DeletePhase::CheckingClone => 2,
            DeletePhase::RemovingClone => 1,
        }
    }

    open spec fn after(state: DeleteFile, event: Event<H, E>) -> Step<
        H,
        DeleteFile,
        Self::Outcome,
    > {
        match (state.phase, event) {
            (DeletePhase::CheckingSave, Event::Found(true)) => delete_step(
                state.path,
                DeletePhase::RemovingSave,
            ),
            (DeletePhase::CheckingSave, Event::Found(false)) => delete_step(
                state.path,
                DeletePhase::CheckingTemp,
            ),
            (DeletePhase::RemovingSave, Event::Done(Ok(()))) => delete_step(
                state.path,
                DeletePhase::CheckingTemp,
            ),
            (DeletePhase::CheckingTemp, Event::Found(true)) => delete_step(
                state.path,
                DeletePhase::RemovingTemp,
            ),
            (DeletePhase::CheckingTemp, Event::Found(false)) => delete_step(
                state.path,
                DeletePhase::CheckingClone,
            ),
            (DeletePhase::RemovingTemp, Event::Done(Ok(()))) => delete_step(
                state.path,
                DeletePhase::CheckingClone,
            ),
            (DeletePhase::CheckingClone, Event::Found(true)) => delete_step(
                state.path,
                DeletePhase::RemovingClone,
            ),
            (DeletePhase::CheckingClone, Event::Found(false)) => Step::Return(Ok(state.path)),
            (DeletePhase::RemovingClone, Event::Done(Ok(()))) => Step::Return(Ok(state.path)),
            (_, Event::Done(Err(e))) => Step::Return(Err(Error::Io(e))),
            _ => arbitrary(),
        }
    }

    fn next(self, event: Event<H, E>) -> (step: Step<H, Self, Self::Out>) {
        let phase = match (self.phase, event) {
            (DeletePhase::CheckingSave, Event::Found(true)) => DeletePhase::RemovingSave,
            (DeletePhase::CheckingSave, Event::Found(false)) => DeletePhase::CheckingTemp,
            (DeletePhase::RemovingSave, Event::Done(Ok(()))) => DeletePhase::CheckingTemp,
            (DeletePhase::CheckingTemp, Event::Found(true)) => DeletePhase::RemovingTemp,
            (DeletePhase::CheckingTemp, Event::Found(false)) => DeletePhase::CheckingClone,
            (DeletePhase::RemovingTemp, Event::Done(Ok(()))) => DeletePhase::CheckingClone,
            (DeletePhase::CheckingClone, Event::Found(true)) => DeletePhase::RemovingClone,
            (DeletePhase::CheckingClone, Event::Found(false)) => {
                return Step::Return(Ok(self.path))
            },
            (DeletePhase::RemovingClone, Event::Done(Ok(()))) => {
                return Step::Return(Ok(self.path))
            },
            (_, Event::Done(Err(e))) => return Step::Return(Err(Error::Io(e))),
            _ => unreached(),
        };
        delete_file_step(self.path, phase)
    }
}

/// The stages of ingesting a file.
#[derive(Debug, Clone, Copy, PartialEq, Eq, Structural)]
pub enum IngestPhase {
    Preparing,
    Validating,
    Finding,
    Ingesting,
}

/// A file that is being ingested.
pub struct IngestFile {
    pub path: ImportPath,
    pub cf_name: String,
    pub length: u64,
    pub crc32: u32,
    pub phase: IngestPhase,
}

/// The action that belongs to a stage of ingesting a file.
pub open spec fn ingest_action<H>(file: IngestFile) -> Action<H> {
    match file.phase {
        IngestPhase::Preparing => Action::PrepareSst(file.path.save, file.path.clone),
        IngestPhase::Validating => Action::ValidateSst {
            cf_name: file.cf_name,
            path: file.path.clone,
            length: file.length,
            crc32: file.crc32,
        },
        IngestPhase::Finding => Action::FindColumnFamily(file.cf_name),
        IngestPhase::Ingesting => Action::IngestSst {
            cf_name: file.cf_name,
            path: file.path.clone,
            move_files: true,
        },
    }
}

/// Whether a file at these paths is being ingested as its metadata announces it.
pub open spec fn ingests(file: IngestFile, meta: SSTMetaView, path: ImportPath) -> bool {
    &&& file.path == path
    &&& file.cf_name@ == meta.cf_name
    &&& file.length == meta.length
    &&& file.crc32 == meta.crc32
}

/// A file in another stage of being ingested.
pub open spec fn ingest_step<H, E>(file: IngestFile, phase: IngestPhase) -> Step<
    H,
    IngestFile,
    Result<(), Error<E>>,
> {
    let file = IngestFile { phase, ..file };
    Step::Do(ingest_action(file), file)
}

/// Makes the step of the stage in which a file is being ingested.
fn ingest_file_step<H, E>(file: IngestFile) -> (step: Step<H, IngestFile, Result<(), Error<E>>>)
    ensures
        step == ingest_step::<H, E>(file, file.phase),
{
    let action = match file.phase {
        IngestPhase::Preparing => Action::PrepareSst(
            file.path.save.clone(),
            file.path.clone.clone(),
        ),
        IngestPhase::Validating => Action::ValidateSst {
            cf_name: file.cf_name.clone(),
            path: file.path.clone.clone(),
            length: file.length,
            crc32: file.crc32,
        },
        IngestPhase::Finding => Action::FindColumnFamily(file.cf_name.clone()),
        IngestPhase::Ingesting => Action::IngestSst {
            cf_name: file.cf_name.clone(),
            path: file.path.clone.clone(),
            move_files: true,
        },
    };
    Step::Do(action, file)
}

impl<H, E> Task<H, E> for IngestFile {
    type Out = Result<(), Error<E>>;

    type State = IngestFile;

    type Outcome = Result<(), Error<E>>;

    open spec fn state(self) -> IngestFile {
        self
    }

    open spec fn outcome(out: Self::Out) -> Self::Outcome {
        out
    }

    open spec fn awaits(state: IngestFile) -> Reply {
        Reply::Done
    }

    open spec fn remaining(state: IngestFile) -> nat {
        match state.phase {
            IngestPhase::Preparing => 4,
            IngestPhase::Validating => 3,
            IngestPhase::Finding => 2,
            IngestPhase::Ingesting => 1,
        }
    }

    open spec fn after(state: IngestFile, event: Event<H, E>) -> Step<
        H,
        IngestFile,
        Self::Outcome,
    > {
        match (state.phase, event) {
            (_, Event::Done(Err(e))) => Step::Return(Err(Error::Io(e))),
            (IngestPhase::Preparing, _) => ingest_step(state, IngestPhase::Validating),
            (IngestPhase::Validating, _) => ingest_step(state, IngestPhase::Finding),
            (IngestPhase::Finding, _) => ingest_step(state, IngestPhase::Ingesting),
            (IngestPhase::Ingesting, _) => Step::Return(Ok(())),
        }
    }

    fn next(self, event: Event<H, E>) -> (step: Step<H, Self, Self::Out>) {
        if let Event::Done(Err(e)) = event {
            return Step::Return(Err(Error::Io(e)));
        }
        let phase = match self.phase {
            IngestPhase::Preparing => IngestPhase::Validating,
            IngestPhase::Validating => IngestPhase::Finding,
            IngestPhase::Finding => IngestPhase::Ingesting,
            IngestPhase::Ingesting => return Step::Return(Ok(())),
        };
        ingest_file_step(
            IngestFile {
                phase,
                path: self.path,
                cf_name: self.cf_name,
                length: self.length,
                crc32: self.crc32,
            },
        )
    }
}

/// An import directory that is being listed.
#[derive(Debug)]
pub struct ListDir;

/// The metadata in the names of listed files, in the order of the entries. Entries that are no
/// files, and files whose name is not an imported file's, do not count. The first entry that could
/// not be read decides the error.
pub open spec fn listed<E>(entries: Seq<DirEntry<E>>) -> Result<Seq<SSTMetaView>, Error<E>>
    decreases entries.len(),
{
    if entries.len() == 0 {
        Ok(Seq::empty())
    } else {
        match listed(entries.drop_last()) {
            Err(e) => Err(e),
            Ok(ssts) => match entries.last() {
                DirEntry::Unreadable(e) => Err(Error::Io(e)),
                DirEntry::Entry(_, Err(e)) => Err(Error::Io(e)),
                DirEntry::Entry(_, Ok(false)) => Ok(ssts),
                DirEntry::Entry(path, Ok(true)) => match path_meta::<E>(path) {
                    Ok(sst) => Ok(ssts.push(sst)),
                    Err(_) => Ok(ssts),
                },
            },
        }
    }
}

/// The contents of a list of metadata.
pub open spec fn metas(ssts: Seq<SSTMeta>) -> Seq<SSTMetaView> {
    ssts.map_values(|sst: SSTMeta| sst@)
}

/// The content of a listing.
pub open spec fn listed_outcome<E>(out: Result<Vec<SSTMeta>, Error<E>>) -> Result<
    Seq<SSTMetaView>,
    Error<E>,
> {
    match out {
        Ok(ssts) => Ok(metas(ssts@)),
        Err(e) => Err(e),
    }
}

proof fn lemma_listed_prefix<E>(entries: Seq<DirEntry<E>>, n: int)
    requires
        0 <= n <= entries.len(),
        listed(entries.take(n)) is Err,
    ensures
        listed(entries) == listed(entries.take(n)),
    decreases entries.len() - n,
{
    if n < entries.len() {
        assert(entries.take(n + 1).drop_last() == entries.take(n));
        lemma_listed_prefix(entries, n + 1);
    } else {
        assert(entries.take(n) == entries);
    }
}

/// Reads the metadata in the names of listed files.
pub fn list_entries<E>(entries: Vec<DirEntry<E>>) -> (r: Result<Vec<SSTMeta>, Error<E>>)
    ensures
        listed_outcome(r) == listed(entries@),
{
    let ghost all = entries@;
    let mut ssts: Vec<SSTMeta> = Vec::new();
    assert(metas(ssts@) == Seq::<SSTMetaView>::empty());
    for entry in it: entries
        invariant
            all == entries@,
            it.seq() == all,
            listed(all.take(it.index() as int)) == Ok::<Seq<SSTMetaView>, Error<E>>(metas(ssts@)),
    {
        let ghost before = metas(ssts@);
        proof {
            let n = it.index() as int;
            assert(entry == all[n]);
            assert(all.take(n + 1).drop_last() == all.take(n));
            if listed(all.take(n + 1)) is Err {
                lemma_listed_prefix(all, n + 1);
            }
        }
        match entry {
            DirEntry::Unreadable(e) => return Err(Error::Io(e)),
            DirEntry::Entry(_, Err(e)) => return Err(Error::Io(e)),
            DirEntry::Entry(path, Ok(is_file)) => {
                if is_file {
                    let r: Result<SSTMeta, Error<E>> = path_to_sst_meta(&path);
                    if let Ok(sst) = r {
                        ssts.push(sst);
                        assert(metas(ssts@) == before.push(sst@));
                    }
                }
            },
        }
    }
    assert(all.take(all.len() as int) == all);
    Ok(ssts)
}

impl<H, E> Task<H, E> for ListDir {
    type Out = Result<Vec<SSTMeta>, Error<E>>;

    type State = ListDir;

    type Outcome = Result<Seq<SSTMetaView>, Error<E>>;

    open spec fn state(self) -> ListDir {
        self
    }

    open spec fn outcome(out: Self::Out) -> Self::Outcome {
        listed_outcome(out)
    }

    open spec fn awaits(state: ListDir) -> Reply {
        Reply::Listed
    }

    open spec fn remaining(state: Self::State) -> nat {
        1
    }

    open spec fn after(state: ListDir, event: Event<H, E>) -> Step<H, ListDir, Self::Outcome> {
        match event {
            Event::Listed(Ok(entries)) => Step::Return(listed(entries@)),
            Event::Listed(Err(e)) => Step::Return(Err(Error::Io(e))),
            _ => arbitrary(),
        }
    }

    fn next(self, event: Event<H, E>) -> (step: Step<H, Self, Self::Out>) {
        match event {
            Event::Listed(Ok(entries)) => Step::Return(list_entries(entries)),
            Event::Listed(Err(e)) => Step::Return(Err(Error::Io(e))),
            _ => unreached(),
        }
    }
}

/// Whether these are the paths of the file with this name in an import directory.
pub open spec fn are_paths(dir: ImportDir, name: Seq<u8>, path: ImportPath) -> bool {
    &&& path.save@ == joined(dir.root_dir@, name)
    &&& path.temp@ == joined(dir.temp_dir@, name)
    &&& path.clone@ == joined(dir.clone_dir@, name)
}

impl ImportDir {
    /// Sets up an import directory. What an earlier run left in its two subdirectories is removed.
    pub fn new<H, E>(root: FilePath) -> (step: Step<H, OpenDir, Result<ImportDir, Error<E>>>)
        ensures
            match step {
                Step::Do(_, task) => {
                    &&& is_import_dir(task.dir, root)
                    &&& step == open_step::<H, E>(task.dir, OpenPhase::CheckingTemp)
                },
                Step::Return(_) => false,
            },
            expects_reply::<H, E, OpenDir>(step),
    {
        let temp_dir = root.join(&FilePath::from_text(TEMP_DIR));
        let clone_dir = root.join(&FilePath::from_text(CLONE_DIR));
        let dir = ImportDir { root_dir: root, temp_dir, clone_dir };
        open_dir_step(dir, OpenPhase::CheckingTemp)
    }

    /// The paths of the file that belongs to metadata.
    pub fn join<E>(&self, meta: &SSTMeta) -> (r: Result<ImportPath, Error<E>>)
        ensures
            match (r, sst_path::<E>(meta@)) {
                (Ok(path), Ok(name)) => are_paths(*self, name, path),
                (Err(e), Err(expected)) => e == expected,
                _ => false,
            },
    {
        let file_name = match sst_meta_to_path(meta) {
            Ok(file_name) => file_name,
            Err(e) => return Err(e),
        };
        Ok(
            ImportPath {
                save: self.root_dir.join(&file_name),
                temp: self.temp_dir.join(&file_name),
                clone: self.clone_dir.join(&file_name),
            },
        )
    }

    /// Begins an upload, unless the file has been uploaded before.
    pub fn create<H, E>(&self, meta: &SSTMeta) -> (step: Step<
        H,
        CreateFile<SSTMeta>,
        Result<ImportFile<H>, Error<E>>,
    >)
        ensures
            ({
                let content = step_content::<H, E, CreateFile<SSTMeta>>(step);
                match (content, sst_path::<E>(meta@)) {
                    (Step::Do(_, CreateFile::Checking(file)), Ok(name)) => {
                        &&& are_paths(*self, name, file.path)
                        &&& content == create_start::<H, E>(meta@, file.path)
                    },
                    (Step::Return(Err(e)), Err(expected)) => e == expected,
                    _ => false,
                }
            }),
            expects_reply::<H, E, CreateFile<SSTMeta>>(step),
    {
        match self.join(meta) {
            Ok(path) => Step::Do(
                Action::Exists(path.save.clone()),
                CreateFile::Checking(OpenFile { meta: meta.clone(), path }),
            ),
            Err(e) => Step::Return(Err(e)),
        }
    }

    /// Deletes a file in all of its stages.
    pub fn delete<H, E>(&self, meta: &SSTMeta) -> (step: Step<
        H,
        DeleteFile,
        Result<ImportPath, Error<E>>,
    >)
        ensures
            match (step, sst_path::<E>(meta@)) {
                (Step::Do(_, task), Ok(name)) => {
                    &&& are_paths(*self, name, task.path)
                    &&& step == delete_step::<H, E>(task.path, DeletePhase::CheckingSave)
                },
                (Step::Return(Err(e)), Err(expected)) => e == expected,
                _ => false,
            },
            expects_reply::<H, E, DeleteFile>(step),
    {
        match self.join(meta) {
            Ok(path) => delete_file_step(path, DeletePhase::CheckingSave),
            Err(e) => Step::Return(Err(e)),
        }
    }

    /// Has the storage engine take in an uploaded file: a copy of the file is prepared and held
    /// against the metadata, then moved into the column family that the metadata names.
    pub fn ingest<H, E>(&self, meta: &SSTMeta) -> (step: Step<H, IngestFile, Result<(), Error<E>>>)
        ensures
            match (step, sst_path::<E>(meta@)) {
                (Step::Do(_, task), Ok(name)) => {
                    &&& are_paths(*self, name, task.path)
                    &&& ingests(task, meta@, task.path)
                    &&& step == ingest_step::<H, E>(task, IngestPhase::Preparing)
                },
                (Step::Return(Err(e)), Err(expected)) => e == expected,
                _ => false,
            },
            expects_reply::<H, E, IngestFile>(step),
    {
        match self.join(meta) {
            Ok(path) => ingest_file_step(
                IngestFile {
                    path,
                    cf_name: meta.cf_name.clone(),
                    length: meta.length,
                    crc32: meta.crc32,
                    phase: IngestPhase::Preparing,
                },
            ),
            Err(e) => Step::Return(Err(e)),
        }
    }

    /// Lists the files that have been uploaded.
    pub fn list_ssts<H, E>(&self) -> (step: Step<H, ListDir, Result<Vec<SSTMeta>, Error<E>>>)
        ensures
            match step {
                Step::Do(action, _) => action == Action::<H>::ReadDir(self.root_dir),
                Step::Return(_) => false,
            },
            expects_reply::<H, E, ListDir>(step),
    {
        Step::Do(Action::ReadDir(self.root_dir.clone()), ListDir)
    }
}

/// The subdirectories of an import directory differ, and neither is below the other.
pub proof fn lemma_subdirs(dir: ImportDir, root: FilePath)
    requires
        is_import_dir(dir, root),
    ensures
        dir.temp_dir@ == dir_prefix(root@) + seq![0x2eu8, 0x74, 0x65, 0x6d, 0x70],
        dir.clone_dir@ == dir_prefix(root@) + seq![0x2eu8, 0x63, 0x6c, 0x6f, 0x6e, 0x65],
        dir.temp_dir@ != dir.clone_dir@,
        !is_below(dir.temp_dir@, dir.clone_dir@),
        !is_below(dir.clone_dir@, dir.temp_dir@),
{
    reveal_strlit(".temp");
    reveal_strlit(".clone");
    let temp = seq![0x2eu8, 0x74, 0x65, 0x6d, 0x70];
    let clone = seq![0x2eu8, 0x63, 0x6c, 0x6f, 0x6e, 0x65];
    assert(is_ascii_chars(TEMP_DIR@));
    assert(is_ascii_chars(CLONE_DIR@));
    is_ascii_chars_encode_utf8(TEMP_DIR@);
    is_ascii_chars_encode_utf8(CLONE_DIR@);
    assert(encode_utf8(TEMP_DIR@) == temp);
    assert(encode_utf8(CLONE_DIR@) == clone);
    let n = dir_prefix(root@).len() as int;
    assert(dir.temp_dir@ == dir_prefix(root@) + temp);
    assert(dir.clone_dir@ == dir_prefix(root@) + clone);
    assert(dir.temp_dir@[n + 1] == 0x74);
    assert(dir.clone_dir@[n + 1] == 0x63);
    if is_below(dir.clone_dir@, dir.temp_dir@) {
        assert(dir.clone_dir@.take(dir.temp_dir@.len() as int)[n + 1] == 0x63);
    }
}

/// The three paths of a file in an import directory differ.
pub proof fn lemma_stages_differ(dir: ImportDir, root: FilePath, name: Seq<u8>, path: ImportPath)
    requires
        is_import_dir(dir, root),
        is_component(name),
        are_paths(dir, name, path),
    ensures
        path.save@ != path.temp@,
        path.save@ != path.clone@,
        path.temp@ != path.clone@,
{
    lemma_subdirs(dir, root);
    assert(!is_separator(name[0]));
    assert(dir.temp_dir@.last() == 0x70);
    assert(dir.clone_dir@.last() == 0x65);
    assert(path.save@.len() == dir_prefix(root@).len() + name.len());
    assert(path.temp@.len() == dir_prefix(root@).len() + 6 + name.len());
    assert(path.clone@.len() == dir_prefix(root@).len() + 7 + name.len());
}

/// Files with different names have no path in common.
pub proof fn lemma_files_apart(
    dir: ImportDir,
    name_a: Seq<u8>,
    a: ImportPath,
    name_b: Seq<u8>,
    b: ImportPath,
)
    requires
        is_component(name_a),
        is_component(name_b),
        name_a != name_b,
        are_paths(dir, name_a, a),
        are_paths(dir, name_b, b),
    ensures
        a.save@ != b.save@ && a.save@ != b.temp@ && a.save@ != b.clone@,
        a.temp@ != b.save@ && a.temp@ != b.temp@ && a.temp@ != b.clone@,
        a.clone@ != b.save@ && a.clone@ != b.temp@ && a.clone@ != b.clone@,
{
    lemma_joined_file_name(dir.root_dir@, name_a);
    lemma_joined_file_name(dir.temp_dir@, name_a);
    lemma_joined_file_name(dir.clone_dir@, name_a);
    lemma_joined_file_name(dir.root_dir@, name_b);
    lemma_joined_file_name(dir.temp_dir@, name_b);
    lemma_joined_file_name(dir.clone_dir@, name_b);
}

/// Whether every entry of a listing could be read.
pub open spec fn readable<E>(entries: Seq<DirEntry<E>>) -> bool {
    forall|i: int|
        0 <= i < entries.len() ==> #[trigger] entries[i] matches DirEntry::Entry(_, Ok(_))
}

/// Whether the listing has a file at a path.
pub open spec fn lists_file<E>(entries: Seq<DirEntry<E>>, path: FilePath) -> bool {
    entries.contains(DirEntry::Entry(path, Ok(true)))
}

/// A listing that could be read gives exactly the metadata in the names of its files.
pub proof fn lemma_listed<E>(entries: Seq<DirEntry<E>>)
    requires
        readable(entries),
    ensures
        listed(entries) is Ok,
        forall|sst: SSTMetaView| #[trigger]
            listed(entries)->Ok_0.contains(sst) <==> exists|path: FilePath| #[trigger]
                lists_file(entries, path) && path_meta::<E>(path) == Ok::<SSTMetaView, Error<E>>(
                    sst,
                ),
    decreases entries.len(),
{
    if entries.len() > 0 {
        let rest = entries.drop_last();
        assert forall|i: int| 0 <= i < rest.len() implies #[trigger] rest[i] matches DirEntry::Entry(
            _,
            Ok(_),
        ) by {
            assert(rest[i] == entries[i]);
        }
        lemma_listed(rest);
        let before = listed(rest)->Ok_0;
        let all = listed(entries)->Ok_0;
        let last = entries.last();
        assert(entries[entries.len() - 1] matches DirEntry::Entry(_, Ok(_)));
        assert forall|path: FilePath| #[trigger]
            lists_file(entries, path) <==> lists_file(rest, path) || last == DirEntry::Entry(
                path,
                Ok::<bool, E>(true),
            ) by {
            let entry = DirEntry::Entry(path, Ok::<bool, E>(true));
            if rest.contains(entry) {
                let i = choose|i: int| 0 <= i < rest.len() && rest[i] == entry;
                assert(entries[i] == entry);
            }
            if entries.contains(entry) && last != entry {
                let i = choose|i: int| 0 <= i < entries.len() && entries[i] == entry;
                assert(rest[i] == entry);
            }
            if last == entry {
                assert(entries[entries.len() - 1] == entry);
            }
        }
        assert forall|sst: SSTMetaView| #[trigger]
            all.contains(sst) <==> exists|path: FilePath| #[trigger]
                lists_file(entries, path) && path_meta::<E>(path) == Ok::<SSTMetaView, Error<E>>(
                    sst,
                ) by {
            if before.contains(sst) {
                let i = choose|i: int| 0 <= i < before.len() && before[i] == sst;
                assert(all[i] == sst);
                let path = choose|path: FilePath| #[trigger]
                    lists_file(rest, path) && path_meta::<E>(path) == Ok::<SSTMetaView, Error<E>>(
                        sst,
                    );
                assert(lists_file(entries, path));
            }
            if all.contains(sst) && !before.contains(sst) {
                let i = choose|i: int| 0 <= i < all.len() && all[i] == sst;
                if i < before.len() {
                    assert(before[i] == sst);
                }
                assert(last matches DirEntry::Entry(path, Ok(true)) && lists_file(entries, path));
            }
            if exists|path: FilePath| #[trigger]
                lists_file(entries, path) && path_meta::<E>(path) == Ok::<SSTMetaView, Error<E>>(
                    sst,
                ) {
                let path = choose|path: FilePath| #[trigger]
                    lists_file(entries, path) && path_meta::<E>(path) == Ok::<
                        SSTMetaView,
                        Error<E>,
                    >(sst);
                if lists_file(rest, path) {
                    assert(before.contains(sst));
                    let i = choose|i: int| 0 <= i < before.len() && before[i] == sst;
                    assert(all[i] == sst);
                } else {
                    assert(all[before.len() as int] == sst);
                }
            }
        }
    }
}

/// The metadata in the name of an entry, where the entry is a file and has such a name.
pub open spec fn meta_at<E>(entries: Seq<DirEntry<E>>, i: int) -> Option<SSTMetaView> {
    match entries[i] {
        DirEntry::Entry(path, Ok(true)) => match path_meta::<E>(path) {
            Ok(sst) => Some(sst),
            Err(_) => None,
        },
        _ => None,
    }
}

/// A listing whose files carry different metadata in their names gives none of it twice.
pub proof fn lemma_listed_once<E>(entries: Seq<DirEntry<E>>)
    requires
        readable(entries),
        forall|i: int, j: int|
            0 <= i < j < entries.len() && #[trigger] meta_at(entries, i) is Some
                && #[trigger] meta_at(entries, j) is Some ==> meta_at(entries, i) != meta_at(
                entries,
                j,
            ),
    ensures
        listed(entries) matches Ok(ssts) && ssts.no_duplicates(),
    decreases entries.len(),
{
    if entries.len() > 0 {
        let rest = entries.drop_last();
        let n = entries.len() - 1;
        assert forall|i: int| 0 <= i < n implies #[trigger] rest[i] == entries[i] && meta_at(rest, i)
            == meta_at(entries, i) by {}
        assert(readable(rest));
        assert forall|i: int, j: int|
            0 <= i < j < rest.len() && #[trigger] meta_at(rest, i) is Some && #[trigger] meta_at(
                rest,
                j,
            ) is Some implies meta_at(rest, i) != meta_at(rest, j) by {
            assert(rest[i] == entries[i] && rest[j] == entries[j]);
            assert(meta_at(entries, i) != meta_at(entries, j));
        }
        lemma_listed_once(rest);
        lemma_listed(rest);
        assert(entries[n] matches DirEntry::Entry(_, Ok(_)));
        let before = listed(rest)->Ok_0;
        if meta_at(entries, n) is Some && before.contains(meta_at(entries, n)->0) {
            let sst = meta_at(entries, n)->0;
            let path = choose|path: FilePath| #[trigger]
                lists_file(rest, path) && path_meta::<E>(path) == Ok::<SSTMetaView, Error<E>>(sst);
            let entry = DirEntry::Entry(path, Ok::<bool, E>(true));
            let i = choose|i: int| 0 <= i < rest.len() && rest[i] == entry;
            assert(meta_at(entries, i) == Some(sst));
        }
    }
}

/// A file that has been uploaded is listed under its identity.
pub proof fn lemma_uploaded_is_listed<E>(
    dir: ImportDir,
    meta: SSTMetaView,
    path: ImportPath,
    entries: Seq<DirEntry<E>>,
    entry: FilePath,
)
    requires
        nameable(meta),
        are_paths(dir, encode_utf8(sst_file_name(meta)), path),
        readable(entries),
        entry@ == path.save@,
        lists_file(entries, entry),
    ensures
        listed(entries) matches Ok(ssts) && ssts.contains(identity_of(meta)),
{
    lemma_listed(entries);
    lemma_path_round_trip::<E>(dir.root_dir@, meta, entry);
    assert(lists_file(entries, entry));
}

} // verus!
