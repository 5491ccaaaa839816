//! A file that is being uploaded.
use crate::checksum::{crc32_ieee, Digest};
use crate::error::{Corruption, Error};
use crate::meta::{SSTMeta, SSTMetaView};
use crate::path::FilePath;
use crate::task::{expects_reply, step_content, Action, Event, Reply, Step, Task};
use std::sync::Arc;
use vstd::pervasive::unreached;
use vstd::prelude::*;
use vstd::slice::slice_to_vec;

verus! {

/// The paths of a file in its stages.
#[derive(PartialEq, Eq)]
pub struct ImportPath {
    /// The path of the file that has been uploaded.
    pub save: FilePath,
    /// The path of the file that is being uploaded.
    pub temp: FilePath,
    /// The path of the file that is going to be ingested.
    pub clone: FilePath,
}

impl Clone for ImportPath {
    fn clone(&self) -> (r: Self)
        ensures
            r == *self,
    {
        ImportPath { save: self.save.clone(), temp: self.temp.clone(), clone: self.clone.clone() }
    }
}

/// A file that is being uploaded. `H` is the host's handle of an open file.
pub struct ImportFile<H> {
    meta: SSTMeta,
    path: ImportPath,
    file: Option<H>,
    digest: Digest,
}

/// The mathematical content of an `ImportFile`.
#[verifier::ext_equal]
pub struct ImportFileView<H> {
    /// What the file should be.
    pub meta: SSTMetaView,
    /// Where it is in its stages.
    pub path: ImportPath,
    /// The handle, while the file is open.
    pub file: Option<H>,
    /// The bytes that were appended.
    pub written: Seq<u8>,
}

impl<H> View for ImportFile<H> {
    type V = ImportFileView<H>;

    closed spec fn view(&self) -> ImportFileView<H> {
        ImportFileView {
            meta: self.meta@,
            path: self.path,
            file: self.file,
            written: self.digest@,
        }
    }
}

impl<H> ImportFileView<H> {
    /// A file of which nothing was uploaded.
    pub open spec fn fresh(meta: SSTMetaView, path: ImportPath, handle: H) -> Self {
        ImportFileView { meta, path, file: Some(handle), written: Seq::empty() }
    }

    /// The file with another handle, or with none.
    pub open spec fn with_handle(self, file: Option<H>) -> Self {
        ImportFileView { file, ..self }
    }

    /// Whether the appended bytes have the announced checksum.
    pub open spec fn crc32_matches(self) -> bool {
        crc32_ieee(self.written) == self.meta.crc32
    }
}

/// The content of a file and a result that belong together.
pub open spec fn file_outcome<H, E>(out: (ImportFile<H>, Result<(), Error<E>>)) -> (
    ImportFileView<H>,
    Result<(), Error<E>>,
) {
    (out.0@, out.1)
}

/// Holds a checksum against the announced one.
pub fn check_crc32<E>(path: &FilePath, found: u32, expect: u32) -> (r: Result<(), Error<E>>)
    ensures
        r == crc32_check::<E>(*path, found, expect),
{
    if found != expect {
        return Err(Error::FileCorrupted(path.clone(), Corruption::Crc32(found, expect)));
    }
    Ok(())
}

/// What `check_crc32` returns.
pub open spec fn crc32_check<E>(path: FilePath, found: u32, expect: u32) -> Result<(), Error<E>> {
    if found == expect {
        Ok(())
    } else {
        Err(Error::FileCorrupted(path, Corruption::Crc32(found, expect)))
    }
}

/// Holds a length against the announced one.
pub fn check_length<E>(path: &FilePath, found: u64, expect: u64) -> (r: Result<(), Error<E>>)
    ensures
        r == length_check::<E>(*path, found, expect),
{
    if found != expect {
        return Err(Error::FileCorrupted(path.clone(), Corruption::Length(found, expect)));
    }
    Ok(())
}

/// What `check_length` returns.
pub open spec fn length_check<E>(path: FilePath, found: u64, expect: u64) -> Result<(), Error<E>> {
    if found == expect {
        Ok(())
    } else {
        Err(Error::FileCorrupted(path, Corruption::Length(found, expect)))
    }
}

/// A file that is being created.
pub struct OpenFile<M> {
    pub meta: M,
    pub path: ImportPath,
}

/// A file to which bytes are being appended.
#[derive(Debug)]
pub struct AppendFile<F> {
    pub file: F,
    pub data: Arc<Vec<u8>>,
}

/// A file that is being validated: its checksum was right, and its length is being measured.
#[derive(Debug)]
pub struct ValidateFile<F> {
    pub file: F,
}

/// An upload that is being finished.
#[derive(Debug)]
pub enum FinishFile<F> {
    /// The file is being validated.
    Validating(ValidateFile<F>),
    /// The file is being brought to the disk.
    Syncing(F),
    /// It is being found out whether there is a file at the final path.
    Checking(F),
    /// The file is being moved to its final path.
    Renaming(F),
}

/// A file that is being given up.
#[derive(Debug)]
pub enum CleanupFile<F> {
    /// The file is being closed.
    Closing(F),
    /// It is being found out whether the file is still there.
    Checking(F),
    /// The file is being removed.
    Removing(F),
}

/// What `ImportFile::create` begins with.
pub open spec fn create_file_start<H, E>(meta: SSTMetaView, path: ImportPath) -> Step<
    H,
    OpenFile<SSTMetaView>,
    Result<ImportFileView<H>, Error<E>>,
> {
    Step::Do(Action::CreateNew(path.temp), OpenFile { meta, path })
}

/// The content of a file that was or was not created.
pub open spec fn created_outcome<H, E>(out: Result<ImportFile<H>, Error<E>>) -> Result<
    ImportFileView<H>,
    Error<E>,
> {
    match out {
        Ok(file) => Ok(file@),
        Err(e) => Err(e),
    }
}

impl<H, E> Task<H, E> for OpenFile<SSTMeta> {
    type Out = Result<ImportFile<H>, Error<E>>;

    type State = OpenFile<SSTMetaView>;

    type Outcome = Result<ImportFileView<H>, Error<E>>;

    open spec fn state(self) -> OpenFile<SSTMetaView> {
        OpenFile { meta: self.meta@, path: self.path }
    }

    open spec fn outcome(out: Self::Out) -> Self::Outcome {
        created_outcome(out)
    }

    open spec fn awaits(state: Self::State) -> Reply {
        Reply::Opened
    }

    open spec fn remaining(state: Self::State) -> nat {
        1
    }

    open spec fn after(state: Self::State, event: Event<H, E>) -> Step<
        H,
        Self::State,
        Self::Outcome,
    > {
        match event {
            Event::Opened(Ok(handle)) => Step::Return(
                Ok(ImportFileView::fresh(state.meta, state.path, handle)),
            ),
            Event::Opened(Err(e)) => Step::Return(Err(Error::Io(e))),
            _ => arbitrary(),
        }
    }

    fn next(self, event: Event<H, E>) -> (step: Step<H, Self, Self::Out>) {
        match event {
            Event::Opened(Ok(handle)) => {
                let file = ImportFile {
                    meta: self.meta,
                    path: self.path,
                    file: Some(handle),
                    digest: Digest::new(),
                };
                Step::Return(Ok(file))
            },
            Event::Opened(Err(e)) => Step::Return(Err(Error::Io(e))),
            _ => unreached(),
        }
    }
}

/// What `ImportFile::append` begins with.
pub open spec fn append_start<H, E>(file: ImportFileView<H>, data: Arc<Vec<u8>>) -> Step<
    H,
    AppendFile<ImportFileView<H>>,
    (ImportFileView<H>, Result<(), Error<E>>),
> {
    Step::Do(
        Action::WriteAll(file.file->0, data),
        AppendFile { file: file.with_handle(None), data },
    )
}

/// What comes next when bytes were written to an open file.
pub open spec fn append_after<H, E>(
    state: AppendFile<ImportFileView<H>>,
    event: Event<H, E>,
) -> Step<H, AppendFile<ImportFileView<H>>, (ImportFileView<H>, Result<(), Error<E>>)> {
    match event {
        Event::Written(handle, Ok(())) => Step::Return(
            (
                ImportFileView {
                    file: Some(handle),
                    written: state.file.written + state.data@,
                    ..state.file
                },
                Ok(()),
            ),
        ),
        Event::Written(handle, Err(e)) => Step::Return(
            (state.file.with_handle(Some(handle)), Err(Error::Io(e))),
        ),
        _ => arbitrary(),
    }
}

impl<H, E> Task<H, E> for AppendFile<ImportFile<H>> {
    type Out = (ImportFile<H>, Result<(), Error<E>>);

    type State = AppendFile<ImportFileView<H>>;

    type Outcome = (ImportFileView<H>, Result<(), Error<E>>);

    open spec fn state(self) -> AppendFile<ImportFileView<H>> {
        AppendFile { file: self.file@, data: self.data }
    }

    open spec fn outcome(out: Self::Out) -> Self::Outcome {
        file_outcome(out)
    }

    open spec fn awaits(state: Self::State) -> Reply {
        Reply::Written
    }

    open spec fn remaining(state: Self::State) -> nat {
        1
    }

    open spec fn after(state: Self::State, event: Event<H, E>) -> Step<
        H,
        Self::State,
        Self::Outcome,
    > {
        append_after(state, event)
    }

    fn next(self, event: Event<H, E>) -> (step: Step<H, Self, Self::Out>) {
        let AppendFile { file, data } = self;
        match event {
            Event::Written(handle, Ok(())) => {
                let digest = file.digest.write(data.as_slice());
                let file = ImportFile { file: Some(handle), digest, meta: file.meta, path: file.path };
                Step::Return((file, Ok(())))
            },
            Event::Written(handle, Err(e)) => Step::Return(
                (file.with_handle(Some(handle)), Err(Error::Io(e))),
            ),
            _ => unreached(),
        }
    }
}

/// What comes next when an open file was measured.
pub open spec fn validate_after<H, E>(file: ImportFileView<H>, event: Event<H, E>) -> Step<
    H,
    ValidateFile<ImportFileView<H>>,
    (ImportFileView<H>, Result<(), Error<E>>),
> {
    match event {
        Event::Measured(handle, Ok(length)) => Step::Return(
            (
                file.with_handle(Some(handle)),
                length_check(file.path.temp, length, file.meta.length),
            ),
        ),
        Event::Measured(handle, Err(e)) => Step::Return(
            (file.with_handle(Some(handle)), Err(Error::Io(e))),
        ),
        _ => arbitrary(),
    }
}

impl<H, E> Task<H, E> for ValidateFile<ImportFile<H>> {
    type Out = (ImportFile<H>, Result<(), Error<E>>);

    type State = ValidateFile<ImportFileView<H>>;

    type Outcome = (ImportFileView<H>, Result<(), Error<E>>);

    open spec fn state(self) -> ValidateFile<ImportFileView<H>> {
        ValidateFile { file: self.file@ }
    }

    open spec fn outcome(out: Self::Out) -> Self::Outcome {
        file_outcome(out)
    }

    open spec fn awaits(state: Self::State) -> Reply {
        Reply::Measured
    }

    open spec fn remaining(state: Self::State) -> nat {
        1
    }

    open spec fn after(state: Self::State, event: Event<H, E>) -> Step<
        H,
        Self::State,
        Self::Outcome,
    > {
        validate_after(state.file, event)
    }

    fn next(self, event: Event<H, E>) -> (step: Step<H, Self, Self::Out>) {
        match event {
            Event::Measured(handle, Ok(length)) => {
                let file = self.file.with_handle(Some(handle));
                let r = check_length(&file.path.temp, length, file.meta.length);
                Step::Return((file, r))
            },
            Event::Measured(handle, Err(e)) => Step::Return(
                (self.file.with_handle(Some(handle)), Err(Error::Io(e))),
            ),
            _ => unreached(),
        }
    }
}

/// What comes next in finishing an upload.
pub open spec fn finish_after<H, E>(
    state: FinishFile<ImportFileView<H>>,
    event: Event<H, E>,
) -> Step<H, FinishFile<ImportFileView<H>>, (ImportFileView<H>, Result<(), Error<E>>)> {
    match (state, event) {
        (FinishFile::Validating(v), event) => match validate_after(v.file, event) {
            Step::Return((file, Ok(()))) => Step::Do(
                Action::SyncAll(file.file->0),
                FinishFile::Syncing(file.with_handle(None)),
            ),
            Step::Return((file, Err(e))) => Step::Return((file, Err(e))),
            Step::Do(action, v) => Step::Do(action, FinishFile::Validating(v)),
        },
        (FinishFile::Syncing(file), Event::Done(Ok(()))) => Step::Do(
            Action::Exists(file.path.save),
            FinishFile::Checking(file),
        ),
        (FinishFile::Checking(file), Event::Found(true)) => Step::Return(
            (file, Err(Error::FileExists(file.path.save))),
        ),
        (FinishFile::Checking(file), Event::Found(false)) => Step::Do(
            Action::Rename(file.path.temp, file.path.save),
            FinishFile::Renaming(file),
        ),
        (FinishFile::Renaming(file), Event::Done(Ok(()))) => Step::Return((file, Ok(()))),
        (FinishFile::Syncing(file), Event::Done(Err(e))) => Step::Return(
            (file, Err(Error::Io(e))),
        ),
        (FinishFile::Renaming(file), Event::Done(Err(e))) => Step::Return(
            (file, Err(Error::Io(e))),
        ),
        _ => arbitrary(),
    }
}

/// How many answers finishing an upload needs at most.
pub open spec fn finish_remaining<F>(state: FinishFile<F>) -> nat {
    match state {
        FinishFile::Validating(_) => 4,
        FinishFile::Syncing(_) => 3,
        FinishFile::Checking(_) => 2,
        FinishFile::Renaming(_) => 1,
    }
}

impl<H, E> Task<H, E> for FinishFile<ImportFile<H>> {
    type Out = (ImportFile<H>, Result<(), Error<E>>);

    type State = FinishFile<ImportFileView<H>>;

    type Outcome = (ImportFileView<H>, Result<(), Error<E>>);

    open spec fn state(self) -> FinishFile<ImportFileView<H>> {
        match self {
            FinishFile::Validating(v) => FinishFile::Validating(
                <ValidateFile<ImportFile<H>> as Task<H, E>>::state(v),
            ),
            FinishFile::Syncing(file) => FinishFile::Syncing(file@),
            FinishFile::Checking(file) => FinishFile::Checking(file@),
            FinishFile::Renaming(file) => FinishFile::Renaming(file@),
        }
    }

    open spec fn outcome(out: Self::Out) -> Self::Outcome {
        file_outcome(out)
    }

    open spec fn awaits(state: Self::State) -> Reply {
        match state {
            FinishFile::Validating(v) => <ValidateFile<ImportFile<H>> as Task<H, E>>::awaits(v),
            FinishFile::Checking(_) => Reply::Found,
            _ => Reply::Done,
        }
    }

    open spec fn remaining(state: Self::State) -> nat {
        finish_remaining(state)
    }

    open spec fn after(state: Self::State, event: Event<H, E>) -> Step<
        H,
        Self::State,
        Self::Outcome,
    > {
        finish_after(state, event)
    }

    fn next(self, event: Event<H, E>) -> (step: Step<H, Self, Self::Out>) {
        match self {
            FinishFile::Validating(v) => match v.next(event) {
                Step::Return((file, Ok(()))) => match file.file {
                    Some(handle) => {
                        let file = ImportFile {
                            file: None,
                            meta: file.meta,
                            path: file.path,
                            digest: file.digest,
                        };
                        Step::Do(Action::SyncAll(handle), FinishFile::Syncing(file))
                    },
                    None => unreached(),
                },
                Step::Return((file, Err(e))) => Step::Return((file, Err(e))),
                Step::Do(action, v) => Step::Do(action, FinishFile::Validating(v)),
            },
            FinishFile::Syncing(file) => match event {
                Event::Done(Ok(())) => Step::Do(
                    Action::Exists(file.path.save.clone()),
                    FinishFile::Checking(file),
                ),
                Event::Done(Err(e)) => Step::Return((file, Err(Error::Io(e)))),
                _ => unreached(),
            },
            FinishFile::Checking(file) => match event {
                Event::Found(true) => {
                    let save = file.path.save.clone();
                    Step::Return((file, Err(Error::FileExists(save))))
                },
                Event::Found(false) => Step::Do(
                    Action::Rename(file.path.temp.clone(), file.path.save.clone()),
                    FinishFile::Renaming(file),
                ),
                _ => unreached(),
            },
            FinishFile::Renaming(file) => match event {
                Event::Done(Ok(())) => Step::Return((file, Ok(()))),
                Event::Done(Err(e)) => Step::Return((file, Err(Error::Io(e)))),
                _ => unreached(),
            },
        }
    }
}

/// What comes next in giving up a file.
pub open spec fn cleanup_after<H, E>(
    state: CleanupFile<ImportFileView<H>>,
    event: Event<H, E>,
) -> Step<H, CleanupFile<ImportFileView<H>>, (ImportFileView<H>, Result<(), Error<E>>)> {
    match (state, event) {
        (CleanupFile::Closing(file), Event::Done(_)) => Step::Do(
            Action::Exists(file.path.temp),
            CleanupFile::Checking(file),
        ),
        (CleanupFile::Checking(file), Event::Found(true)) => Step::Do(
            Action::RemoveFile(file.path.temp),
            CleanupFile::Removing(file),
        ),
        (CleanupFile::Checking(file), Event::Found(false)) => Step::Return((file, Ok(()))),
        (CleanupFile::Removing(file), Event::Done(Ok(()))) => Step::Return((file, Ok(()))),
        (CleanupFile::Removing(file), Event::Done(Err(e))) => Step::Return(
            (file, Err(Error::Io(e))),
        ),
        _ => arbitrary(),
    }
}

/// How many answers giving up a file needs at most.
pub open spec fn cleanup_remaining<F>(state: CleanupFile<F>) -> nat {
    match state {
        CleanupFile::Closing(_) => 3,
        CleanupFile::Checking(_) => 2,
        CleanupFile::Removing(_) => 1,
    }
}

impl<H, E> Task<H, E> for CleanupFile<ImportFile<H>> {
    type Out = (ImportFile<H>, Result<(), Error<E>>);

    type State = CleanupFile<ImportFileView<H>>;

    type Outcome = (ImportFileView<H>, Result<(), Error<E>>);

    open spec fn state(self) -> CleanupFile<ImportFileView<H>> {
        match self {
            CleanupFile::Closing(file) => CleanupFile::Closing(file@),
            CleanupFile::Checking(file) => CleanupFile::Checking(file@),
            CleanupFile::Removing(file) => CleanupFile::Removing(file@),
        }
    }

    open spec fn outcome(out: Self::Out) -> Self::Outcome {
        file_outcome(out)
    }

    open spec fn awaits(state: Self::State) -> Reply {
        match state {
            CleanupFile::Checking(_) => Reply::Found,
            _ => Reply::Done,
        }
    }

    open spec fn remaining(state: Self::State) -> nat {
        cleanup_remaining(state)
    }

    open spec fn after(state: Self::State, event: Event<H, E>) -> Step<
        H,
        Self::State,
        Self::Outcome,
    > {
        cleanup_after(state, event)
    }

    fn next(self, event: Event<H, E>) -> (step: Step<H, Self, Self::Out>) {
        match self {
            CleanupFile::Closing(file) => Step::Do(
                Action::Exists(file.path.temp.clone()),
                CleanupFile::Checking(file),
            ),
            CleanupFile::Checking(file) => match event {
                Event::Found(true) => Step::Do(
                    Action::RemoveFile(file.path.temp.clone()),
                    CleanupFile::Removing(file),
                ),
                Event::Found(false) => Step::Return((file, Ok(()))),
                _ => unreached(),
            },
            CleanupFile::Removing(file) => match event {
                Event::Done(Ok(())) => Step::Return((file, Ok(()))),
                Event::Done(Err(e)) => Step::Return((file, Err(Error::Io(e)))),
                _ => unreached(),
            },
        }
    }
}

/// What `ImportFile::validate` begins with. The checksum is held against the announced one first;
/// the file is measured only where it is right.
pub open spec fn validate_start<H, E>(file: ImportFileView<H>) -> Step<
    H,
    ValidateFile<ImportFileView<H>>,
    (ImportFileView<H>, Result<(), Error<E>>),
> {
    match crc32_check::<E>(file.path.temp, crc32_ieee(file.written), file.meta.crc32) {
        Ok(()) => Step::Do(
            Action::Length(file.file->0),
            ValidateFile { file: file.with_handle(None) },
        ),
        Err(e) => Step::Return((file, Err(e))),
    }
}

/// What `ImportFile::finish` begins with: with validating the file.
pub open spec fn finish_start<H, E>(file: ImportFileView<H>) -> Step<
    H,
    FinishFile<ImportFileView<H>>,
    (ImportFileView<H>, Result<(), Error<E>>),
> {
    match validate_start::<H, E>(file) {
        Step::Do(action, v) => Step::Do(action, FinishFile::Validating(v)),
        Step::Return(out) => Step::Return(out),
    }
}

/// What `ImportFile::cleanup` begins with.
pub open spec fn cleanup_start<H, E>(file: ImportFileView<H>) -> Step<
    H,
    CleanupFile<ImportFileView<H>>,
    (ImportFileView<H>, Result<(), Error<E>>),
> {
    match file.file {
        Some(handle) => Step::Do(
            Action::Close(handle),
            CleanupFile::Closing(file.with_handle(None)),
        ),
        None => Step::Do(Action::Exists(file.path.temp), CleanupFile::Checking(file)),
    }
}

impl<H> ImportFile<H> {
    /// Whether the file is open.
    pub fn is_open(&self) -> (r: bool)
        ensures
            r == (self@.file is Some),
    {
        self.file.is_some()
    }

    /// What the file should be.
    pub fn meta(&self) -> (r: &SSTMeta)
        ensures
            r@ == self@.meta,
    {
        &self.meta
    }

    /// Where the file is in its stages.
    pub fn path(&self) -> (r: &ImportPath)
        ensures
            *r == self@.path,
    {
        &self.path
    }

    fn with_handle(self, file: Option<H>) -> (r: ImportFile<H>)
        ensures
            r@ == self@.with_handle(file),
    {
        ImportFile { file, meta: self.meta, path: self.path, digest: self.digest }
    }

    /// Begins an upload: creates the file at its temporary path. There may be none yet.
    pub fn create<E>(meta: SSTMeta, path: ImportPath) -> (step: Step<
        H,
        OpenFile<SSTMeta>,
        Result<ImportFile<H>, Error<E>>,
    >)
        ensures
            step_content::<H, E, OpenFile<SSTMeta>>(step) == create_file_start::<H, E>(meta@, path),
            expects_reply::<H, E, OpenFile<SSTMeta>>(step),
    {
        Step::Do(Action::CreateNew(path.temp.clone()), OpenFile { meta, path })
    }

    /// Appends bytes to an open file. They count only when all of them were written.
    pub fn append<E>(self, data: &[u8]) -> (step: Step<
        H,
        AppendFile<ImportFile<H>>,
        (ImportFile<H>, Result<(), Error<E>>),
    >)
        requires
            self@.file is Some,
        ensures
            match step {
                Step::Do(_, task) => {
                    &&& task.data@ == data@
                    &&& step_content::<H, E, AppendFile<ImportFile<H>>>(step) == append_start::<
                        H,
                        E,
                    >(self@, task.data)
                },
                Step::Return(_) => false,
            },
            expects_reply::<H, E, AppendFile<ImportFile<H>>>(step),
    {
        let ImportFile { meta, path, file, digest } = self;
        match file {
            Some(handle) => {
                let data: Arc<Vec<u8>> = Arc::new(slice_to_vec(data));
                let file = ImportFile { meta, path, file: None, digest };
                Step::Do(Action::WriteAll(handle, data.clone()), AppendFile { file, data })
            },
            None => unreached(),
        }
    }

    /// Holds the file against its metadata: the checksum of what was appended, then the length of
    /// the file.
    pub fn validate<E>(self) -> (step: Step<
        H,
        ValidateFile<ImportFile<H>>,
        (ImportFile<H>, Result<(), Error<E>>),
    >)
        requires
            self@.crc32_matches() ==> self@.file is Some,
        ensures
            step_content::<H, E, ValidateFile<ImportFile<H>>>(step) == validate_start::<H, E>(self@),
            expects_reply::<H, E, ValidateFile<ImportFile<H>>>(step),
    {
        match check_crc32(&self.path.temp, self.digest.sum32(), self.meta.crc32) {
            Ok(()) => {
                let ImportFile { meta, path, file, digest } = self;
                match file {
                    Some(handle) => {
                        let file = ImportFile { meta, path, file: None, digest };
                        Step::Do(Action::Length(handle), ValidateFile { file })
                    },
                    None => unreached(),
                }
            },
            Err(e) => Step::Return((self, Err(e))),
        }
    }

    /// Ends an upload: validates the file, brings it to the disk, and moves it to its final path,
    /// where there may be no file yet.
    pub fn finish<E>(self) -> (step: Step<
        H,
        FinishFile<ImportFile<H>>,
        (ImportFile<H>, Result<(), Error<E>>),
    >)
        requires
            self@.crc32_matches() ==> self@.file is Some,
        ensures
            step_content::<H, E, FinishFile<ImportFile<H>>>(step) == finish_start::<H, E>(self@),
            expects_reply::<H, E, FinishFile<ImportFile<H>>>(step),
    {
        match self.validate() {
            Step::Do(action, v) => Step::Do(action, FinishFile::Validating(v)),
            Step::Return(out) => Step::Return(out),
        }
    }

    /// Gives up a file: closes it, and removes it from its temporary path if it is still there.
    pub fn cleanup<E>(self) -> (step: Step<
        H,
        CleanupFile<ImportFile<H>>,
        (ImportFile<H>, Result<(), Error<E>>),
    >)
        ensures
            step_content::<H, E, CleanupFile<ImportFile<H>>>(step) == cleanup_start::<H, E>(self@),
            expects_reply::<H, E, CleanupFile<ImportFile<H>>>(step),
    {
        let ImportFile { meta, path, file, digest } = self;
        let temp = path.temp.clone();
        let closed = ImportFile { meta, path, file: None, digest };
        match file {
            Some(handle) => Step::Do(Action::Close(handle), CleanupFile::Closing(closed)),
            None => Step::Do(Action::Exists(temp), CleanupFile::Checking(closed)),
        }
    }
}

} // verus!
