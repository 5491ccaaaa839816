//! The uploads that are under way, each under its token.
use crate::error::{Error, Token};
use crate::import_dir::{
    are_paths, create_start, delete_step, ingest_step, ingests, is_import_dir, open_step,
    CreateFile, DeleteFile, DeletePhase, ImportDir, IngestFile, IngestPhase, ListDir, OpenDir,
    OpenPhase,
};
use crate::import_file::{
    append_after, cleanup_after, cleanup_remaining, cleanup_start, finish_after, finish_remaining,
    finish_start, AppendFile, CleanupFile, FinishFile, ImportFile, ImportFileView, ImportPath,
};
use crate::meta::{sst_path, SSTMeta};
use crate::path::FilePath;
use crate::task::{expects_reply, reply_to, step_content, Action, Event, Reply, Step, Task};
use std::collections::HashMap;
use std::sync::Arc;
use vstd::prelude::*;
use vstd::std_specs::iter::IteratorSpec;

verus! {

broadcast use vstd::std_specs::hash::group_hash_axioms;

/// The uploads that are under way. `H` is the host's handle of an open file.
#[verifier::reject_recursive_types(H)]
pub struct SSTImporter<H> {
    dir: ImportDir,
    token: Token,
    files: HashMap<Token, ImportFile<H>>,
}

/// The mathematical content of an `SSTImporter`.
#[verifier::reject_recursive_types(H)]
#[verifier::ext_equal]
pub struct SSTImporterView<H> {
    /// The directory of the files.
    pub dir: ImportDir,
    /// The next token.
    pub token: Token,
    /// The uploads that are under way.
    pub files: Map<Token, ImportFileView<H>>,
}

impl<H> SSTImporterView<H> {
    /// Every upload has its file open between operations.
    pub open spec fn wf(self) -> bool {
        forall|token: Token| #[trigger]
            self.files.contains_key(token) ==> self.files[token].file is Some
    }
}

impl<H> View for SSTImporter<H> {
    type V = SSTImporterView<H>;

    closed spec fn view(&self) -> SSTImporterView<H> {
        SSTImporterView {
            dir: self.dir,
            token: self.token,
            files: self.files@.map_values(|file: ImportFile<H>| file@),
        }
    }
}

/// The token that is handed out behind another.
pub open spec fn token_after(token: Token) -> Token {
    if token == usize::MAX {
        0
    } else {
        (token + 1) as usize
    }
}

/// The token that is handed out after `n` others, where the first is `first`.
pub open spec fn nth_token(first: Token, n: nat) -> Token
    decreases n,
{
    if n == 0 {
        first
    } else {
        token_after(nth_token(first, (n - 1) as nat))
    }
}

/// How tokens count up.
proof fn lemma_nth_token(first: Token, n: nat)
    requires
        n <= usize::MAX,
    ensures
        nth_token(first, n) == (if first + n <= usize::MAX {
            first + n
        } else {
            first + n - usize::MAX - 1
        }),
    decreases n,
{
    if n > 0 {
        lemma_nth_token(first, (n - 1) as nat);
    }
}

/// No token is handed out twice, until as many were handed out as there are tokens.
pub proof fn lemma_tokens_differ(first: Token, i: nat, j: nat)
    requires
        i < j <= usize::MAX,
    ensures
        nth_token(first, i) != nth_token(first, j),
{
    lemma_nth_token(first, i);
    lemma_nth_token(first, j);
}

/// An upload to which bytes are being appended.
#[derive(Debug)]
pub enum AppendUpload<F, E> {
    /// The bytes are being appended.
    Appending(AppendFile<F>),
    /// They could not be, and the file is being given up.
    Discarding(CleanupFile<F>, Error<E>),
}

/// What appending bytes to an upload begins with.
pub open spec fn append_upload_start<H, E>(file: ImportFileView<H>, data: Arc<Vec<u8>>) -> Step<
    H,
    AppendUpload<ImportFileView<H>, E>,
    Result<ImportFileView<H>, Error<E>>,
> {
    Step::Do(
        Action::WriteAll(file.file->0, data),
        AppendUpload::Appending(AppendFile { file: file.with_handle(None), data }),
    )
}

/// What comes next in appending bytes to an upload. An upload to which they could not be appended
/// is given up, and what goes wrong in that does not count.
pub open spec fn append_upload_after<H, E>(
    state: AppendUpload<ImportFileView<H>, E>,
    event: Event<H, E>,
) -> Step<H, AppendUpload<ImportFileView<H>, E>, Result<ImportFileView<H>, Error<E>>> {
    match state {
        AppendUpload::Appending(task) => match append_after(task, event) {
            Step::Do(action, task) => Step::Do(action, AppendUpload::Appending(task)),
            Step::Return((file, Ok(()))) => Step::Return(Ok(file)),
            Step::Return((file, Err(e))) => match cleanup_start::<H, E>(file) {
                Step::Do(action, task) => Step::Do(action, AppendUpload::Discarding(task, e)),
                Step::Return(_) => Step::Return(Err(e)),
            },
        },
        AppendUpload::Discarding(task, e) => match cleanup_after(task, event) {
            Step::Do(action, task) => Step::Do(action, AppendUpload::Discarding(task, e)),
            Step::Return(_) => Step::Return(Err(e)),
        },
    }
}

/// The content of a file being given up.
pub open spec fn cleanup_state<H>(task: CleanupFile<ImportFile<H>>) -> CleanupFile<
    ImportFileView<H>,
> {
    match task {
        CleanupFile::Closing(file) => CleanupFile::Closing(file@),
        CleanupFile::Checking(file) => CleanupFile::Checking(file@),
        CleanupFile::Removing(file) => CleanupFile::Removing(file@),
    }
}

impl<H, E> Task<H, E> for AppendUpload<ImportFile<H>, E> {
    type Out = Result<ImportFile<H>, Error<E>>;

    type State = AppendUpload<ImportFileView<H>, E>;

    type Outcome = Result<ImportFileView<H>, Error<E>>;

    open spec fn state(self) -> AppendUpload<ImportFileView<H>, E> {
        match self {
            AppendUpload::Appending(task) => AppendUpload::Appending(
                <AppendFile<ImportFile<H>> as Task<H, E>>::state(task),
            ),
            AppendUpload::Discarding(task, e) => AppendUpload::Discarding(cleanup_state(task), e),
        }
    }

    open spec fn outcome(out: Self::Out) -> Self::Outcome {
        match out {
            Ok(file) => Ok(file@),
            Err(e) => Err(e),
        }
    }

    open spec fn awaits(state: Self::State) -> Reply {
        match state {
            AppendUpload::Appending(task) => <AppendFile<ImportFile<H>> as Task<H, E>>::awaits(task),
            AppendUpload::Discarding(CleanupFile::Checking(_), _) => Reply::Found,
            AppendUpload::Discarding(_, _) => Reply::Done,
        }
    }

    open spec fn remaining(state: Self::State) -> nat {
        match state {
            AppendUpload::Appending(_) => 4,
            AppendUpload::Discarding(task, _) => cleanup_remaining(task),
        }
    }

    open spec fn after(state: Self::State, event: Event<H, E>) -> Step<
        H,
        Self::State,
        Self::Outcome,
    > {
        append_upload_after(state, event)
    }

    fn next(self, event: Event<H, E>) -> (step: Step<H, Self, Self::Out>) {
        match self {
            AppendUpload::Appending(task) => match task.next(event) {
                Step::Do(action, task) => Step::Do(action, AppendUpload::Appending(task)),
                Step::Return((file, Ok(()))) => Step::Return(Ok(file)),
                Step::Return((file, Err(e))) => match file.cleanup::<E>() {
                    Step::Do(action, task) => Step::Do(action, AppendUpload::Discarding(task, e)),
                    Step::Return(_) => Step::Return(Err(e)),
                },
            },
            AppendUpload::Discarding(task, e) => match task.next(event) {
                Step::Do(action, task) => Step::Do(action, AppendUpload::Discarding(task, e)),
                Step::Return(_) => Step::Return(Err(e)),
            },
        }
    }
}

/// An upload that is being ended.
#[derive(Debug)]
pub enum FinishUpload<F, E> {
    /// The file is being finished.
    Finishing(FinishFile<F>),
    /// It was finished or could not be, and what is left of it is being given up.
    Discarding(CleanupFile<F>, Result<(), Error<E>>),
}

/// What comes next in ending an upload. Whether or not the file was finished, what is left of it at
/// its temporary path is given up, and what goes wrong in that does not count.
pub open spec fn finish_upload_after<H, E>(
    state: FinishUpload<ImportFileView<H>, E>,
    event: Event<H, E>,
) -> Step<H, FinishUpload<ImportFileView<H>, E>, Result<(), Error<E>>> {
    match state {
        FinishUpload::Finishing(task) => match finish_after(task, event) {
            Step::Do(action, task) => Step::Do(action, FinishUpload::Finishing(task)),
            Step::Return((file, r)) => discard_start(file, r),
        },
        FinishUpload::Discarding(task, r) => match cleanup_after(task, event) {
            Step::Do(action, task) => Step::Do(action, FinishUpload::Discarding(task, r)),
            Step::Return(_) => Step::Return(r),
        },
    }
}

/// The begin of giving up a file whose upload has ended with a result.
pub open spec fn discard_start<H, E>(file: ImportFileView<H>, r: Result<(), Error<E>>) -> Step<
    H,
    FinishUpload<ImportFileView<H>, E>,
    Result<(), Error<E>>,
> {
    match cleanup_start::<H, E>(file) {
        Step::Do(action, task) => Step::Do(action, FinishUpload::Discarding(task, r)),
        Step::Return(_) => Step::Return(r),
    }
}

/// What ending an upload begins with.
pub open spec fn finish_upload_start<H, E>(file: ImportFileView<H>) -> Step<
    H,
    FinishUpload<ImportFileView<H>, E>,
    Result<(), Error<E>>,
> {
    match finish_start::<H, E>(file) {
        Step::Do(action, task) => Step::Do(action, FinishUpload::Finishing(task)),
        Step::Return((file, r)) => discard_start(file, r),
    }
}

/// Begins to give up a file whose upload has ended with a result.
fn discard<H, E>(file: ImportFile<H>, r: Result<(), Error<E>>) -> (step: Step<
    H,
    FinishUpload<ImportFile<H>, E>,
    Result<(), Error<E>>,
>)
    ensures
        match step {
            Step::Do(action, FinishUpload::Discarding(task, kept)) => {
                &&& discard_start::<H, E>(file@, r) == Step::<
                    H,
                    FinishUpload<ImportFileView<H>, E>,
                    Result<(), Error<E>>,
                >::Do(action, FinishUpload::Discarding(cleanup_state(task), kept))
                &&& reply_to(action) == <CleanupFile<ImportFile<H>> as Task<H, E>>::awaits(
                    cleanup_state(task),
                )
            },
            _ => false,
        },
{
    match file.cleanup::<E>() {
        Step::Do(action, task) => Step::Do(action, FinishUpload::Discarding(task, r)),
        Step::Return(_) => Step::Return(r),
    }
}

impl<H, E> Task<H, E> for FinishUpload<ImportFile<H>, E> {
    type Out = Result<(), Error<E>>;

    type State = FinishUpload<ImportFileView<H>, E>;

    type Outcome = Result<(), Error<E>>;

    open spec fn state(self) -> FinishUpload<ImportFileView<H>, E> {
        match self {
            FinishUpload::Finishing(task) => FinishUpload::Finishing(
                <FinishFile<ImportFile<H>> as Task<H, E>>::state(task),
            ),
            FinishUpload::Discarding(task, r) => FinishUpload::Discarding(cleanup_state(task), r),
        }
    }

    open spec fn outcome(out: Self::Out) -> Self::Outcome {
        out
    }

    open spec fn awaits(state: Self::State) -> Reply {
        match state {
            FinishUpload::Finishing(FinishFile::Validating(_)) => Reply::Measured,
            FinishUpload::Finishing(FinishFile::Checking(_)) => Reply::Found,
            FinishUpload::Finishing(_) => Reply::Done,
            FinishUpload::Discarding(CleanupFile::Checking(_), _) => Reply::Found,
            FinishUpload::Discarding(_, _) => Reply::Done,
        }
    }

    open spec fn remaining(state: Self::State) -> nat {
        match state {
            FinishUpload::Finishing(task) => finish_remaining(task) + 3,
            FinishUpload::Discarding(task, _) => cleanup_remaining(task),
        }
    }

    open spec fn after(state: Self::State, event: Event<H, E>) -> Step<
        H,
        Self::State,
        Self::Outcome,
    > {
        finish_upload_after(state, event)
    }

    fn next(self, event: Event<H, E>) -> (step: Step<H, Self, Self::Out>) {
        match self {
            FinishUpload::Finishing(task) => match task.next(event) {
                Step::Do(action, task) => Step::Do(action, FinishUpload::Finishing(task)),
                Step::Return((file, r)) => discard(file, r),
            },
            FinishUpload::Discarding(task, r) => match task.next(event) {
                Step::Do(action, task) => Step::Do(action, FinishUpload::Discarding(task, r)),
                Step::Return(_) => Step::Return(r),
            },
        }
    }
}

/// A file that is being deleted, of which only the success counts.
pub struct DeleteUpload {
    pub file: DeleteFile,
}

/// A step of deleting a file, of which only the success counts.
pub open spec fn delete_upload_step<H, E>(
    step: Step<H, DeleteFile, Result<ImportPath, Error<E>>>,
) -> Step<H, DeleteUpload, Result<(), Error<E>>> {
    match step {
        Step::Do(action, file) => Step::Do(action, DeleteUpload { file }),
        Step::Return(Ok(_)) => Step::Return(Ok(())),
        Step::Return(Err(e)) => Step::Return(Err(e)),
    }
}

/// Makes a step of deleting a file, of which only the success counts.
fn without_path<H, E>(step: Step<H, DeleteFile, Result<ImportPath, Error<E>>>) -> (r: Step<
    H,
    DeleteUpload,
    Result<(), Error<E>>,
>)
    ensures
        r == delete_upload_step::<H, E>(step),
{
    match step {
        Step::Do(action, file) => Step::Do(action, DeleteUpload { file }),
        Step::Return(Ok(_)) => Step::Return(Ok(())),
        Step::Return(Err(e)) => Step::Return(Err(e)),
    }
}

impl<H, E> Task<H, E> for DeleteUpload {
    type Out = Result<(), Error<E>>;

    type State = DeleteUpload;

    type Outcome = Result<(), Error<E>>;

    open spec fn state(self) -> DeleteUpload {
        self
    }

    open spec fn outcome(out: Self::Out) -> Self::Outcome {
        out
    }

    open spec fn awaits(state: DeleteUpload) -> Reply {
        <DeleteFile as Task<H, E>>::awaits(state.file)
    }

    open spec fn remaining(state: DeleteUpload) -> nat {
        <DeleteFile as Task<H, E>>::remaining(state.file)
    }

    open spec fn after(state: DeleteUpload, event: Event<H, E>) -> Step<
        H,
        DeleteUpload,
        Self::Outcome,
    > {
        delete_upload_step(<DeleteFile as Task<H, E>>::after(state.file, event))
    }

    fn next(self, event: Event<H, E>) -> (step: Step<H, Self, Self::Out>) {
        without_path(self.file.next(event))
    }
}

impl<H> SSTImporter<H> {
    /// Sets up the import directory; `new_done` makes the importer when it is set up.
    pub fn new<E>(root: FilePath) -> (step: Step<H, OpenDir, Result<ImportDir, Error<E>>>)
        ensures
            match step {
                Step::Do(_, task) => {
                    &&& is_import_dir(task.dir, root)
                    &&& step == open_step::<H, E>(task.dir, OpenPhase::CheckingTemp)
                },
                Step::Return(_) => false,
            },
            expects_reply::<H, E, OpenDir>(step),
    {
        ImportDir::new(root)
    }

    /// An importer for a directory that was set up. No upload is under way, and tokens start at
    /// one.
    pub fn new_done<E>(r: Result<ImportDir, Error<E>>) -> (importer: Result<
        SSTImporter<H>,
        Error<E>,
    >)
        ensures
            match (r, importer) {
                (Ok(dir), Ok(importer)) => importer@ == (SSTImporterView {
                    dir,
                    token: 1,
                    files: Map::<Token, ImportFileView<H>>::empty(),
                }),
                (Err(e), Err(f)) => e == f,
                _ => false,
            },
    {
        match r {
            Ok(dir) => {
                let importer = SSTImporter { dir, token: 1, files: HashMap::new() };
                assert(importer@.files =~= Map::<Token, ImportFileView<H>>::empty());
                Ok(importer)
            },
            Err(e) => Err(e),
        }
    }

    /// Hands out a token. Tokens count up, and begin anew behind the largest.
    pub fn token(&mut self) -> (r: Token)
        ensures
            r == old(self)@.token,
            final(self)@ == (SSTImporterView {
                token: token_after(r),
                ..old(self)@
            }),
    {
        let token: Token = self.token;
        self.token = token.wrapping_add(1);
        token
    }

    /// Whether an upload with this token is under way.
    pub fn contains(&self, token: Token) -> (r: bool)
        ensures
            r == self@.files.contains_key(token),
    {
        self.files.contains_key(&token)
    }

    /// The tokens of the uploads that are under way, in no particular order.
    pub fn tokens(&self) -> (r: Vec<Token>)
        ensures
            r@.to_set() == self@.files.dom(),
            r@.no_duplicates(),
    {
        let mut tokens: Vec<Token> = Vec::new();
        let keys = self.files.keys();
        let ghost all = keys.remaining().unref();
        assert(all.to_set() == self.files@.dom());
        for token in it: keys
            invariant
                it.seq().unref() == all,
                it.seq().no_duplicates(),
                tokens@ == all.take(it.index() as int),
        {
            tokens.push(*token);
        }
        assert(tokens@ == all);
        assert(tokens@.to_set() =~= self@.files.dom());
        tokens
    }

    fn insert(&mut self, token: Token, file: ImportFile<H>)
        requires
            !old(self)@.files.contains_key(token),
        ensures
            final(self)@ == (SSTImporterView {
                files: old(self)@.files.insert(token, file@),
                ..old(self)@
            }),
    {
        self.files.insert(token, file);
        assert(self@.files =~= old(self)@.files.insert(token, file@));
    }

    /// Takes an upload out.
    pub fn remove(&mut self, token: Token) -> (r: Option<ImportFile<H>>)
        ensures
            match r {
                Some(file) => old(self)@.files.contains_key(token) && file@ == old(
                    self,
                )@.files[token],
                None => !old(self)@.files.contains_key(token),
            },
            final(self)@ == (SSTImporterView {
                files: old(self)@.files.remove(token),
                ..old(self)@
            }),
    {
        let r = self.files.remove(&token);
        assert(self@.files =~= old(self)@.files.remove(token));
        r
    }

    /// Begins an upload under a token that is not in use; `create_done` takes the file in.
    pub fn create<E>(&self, token: Token, meta: &SSTMeta) -> (step: Step<
        H,
        CreateFile<SSTMeta>,
        Result<ImportFile<H>, Error<E>>,
    >)
        ensures
            if self@.files.contains_key(token) {
                step matches Step::Return(Err(e)) && e == Error::<E>::TokenExists(token)
            } else {
                let content = step_content::<H, E, CreateFile<SSTMeta>>(step);
                match (content, sst_path::<E>(meta@)) {
                    (Step::Do(_, CreateFile::Checking(file)), Ok(name)) => {
                        &&& are_paths(self@.dir, name, file.path)
                        &&& content == create_start::<H, E>(meta@, file.path)
                    },
                    (Step::Return(Err(e)), Err(expected)) => e == expected,
                    _ => false,
                }
            },
            expects_reply::<H, E, CreateFile<SSTMeta>>(step),
    {
        if self.files.contains_key(&token) {
            return Step::Return(Err(Error::TokenExists(token)));
        }
        self.dir.create(meta)
    }

    /// Takes in the file of an upload that has begun under a token that is not in use.
    pub fn create_done<E>(&mut self, token: Token, r: Result<ImportFile<H>, Error<E>>) -> (done:
        Result<(), Error<E>>)
        requires
            old(self)@.wf(),
            r matches Ok(file) ==> file@.file is Some && !old(self)@.files.contains_key(token),
        ensures
            final(self)@.wf(),
            match (r, done) {
                (Ok(file), Ok(())) => final(self)@ == (SSTImporterView {
                    files: old(self)@.files.insert(token, file@),
                    ..old(self)@
                }),
                (Err(e), Err(f)) => e == f && final(self)@ == old(self)@,
                _ => false,
            },
    {
        match r {
            Ok(file) => {
                self.insert(token, file);
                Ok(())
            },
            Err(e) => Err(e),
        }
    }

    /// Appends bytes to an upload, which is taken out meanwhile; `append_done` takes it in again.
    pub fn append<E>(&mut self, token: Token, data: &[u8]) -> (step: Step<
        H,
        AppendUpload<ImportFile<H>, E>,
        Result<ImportFile<H>, Error<E>>,
    >)
        requires
            old(self)@.wf(),
        ensures
            final(self)@.wf(),
            final(self)@ == (SSTImporterView {
                files: old(self)@.files.remove(token),
                ..old(self)@
            }),
            if old(self)@.files.contains_key(token) {
                let file = old(self)@.files[token];
                match step {
                    Step::Do(_, AppendUpload::Appending(task)) => {
                        &&& task.data@ == data@
                        &&& step_content::<H, E, AppendUpload<ImportFile<H>, E>>(step)
                            == append_upload_start::<H, E>(file, task.data)
                    },
                    _ => false,
                }
            } else {
                step matches Step::Return(Err(e)) && e == Error::<E>::TokenNotFound(token)
            },
            expects_reply::<H, E, AppendUpload<ImportFile<H>, E>>(step),
    {
        match self.remove(token) {
            Some(file) => match file.append::<E>(data) {
                Step::Do(action, task) => Step::Do(action, AppendUpload::Appending(task)),
                Step::Return((file, _)) => Step::Return(Ok(file)),
            },
            None => Step::Return(Err(Error::TokenNotFound(token))),
        }
    }

    /// Takes in again an upload to which bytes were appended. Meanwhile no other upload may have
    /// begun under its token.
    pub fn append_done<E>(&mut self, token: Token, r: Result<ImportFile<H>, Error<E>>) -> (done:
        Result<(), Error<E>>)
        requires
            old(self)@.wf(),
            r matches Ok(file) ==> file@.file is Some && !old(self)@.files.contains_key(token),
        ensures
            final(self)@.wf(),
            match (r, done) {
                (Ok(file), Ok(())) => final(self)@ == (SSTImporterView {
                    files: old(self)@.files.insert(token, file@),
                    ..old(self)@
                }),
                (Err(e), Err(f)) => e == f && final(self)@ == old(self)@,
                _ => false,
            },
    {
        match r {
            Ok(file) => {
                self.insert(token, file);
                Ok(())
            },
            Err(e) => Err(e),
        }
    }

    /// Ends an upload, which is taken out: its file is finished, and what is left of it is given
    /// up.
    pub fn finish<E>(&mut self, token: Token) -> (step: Step<
        H,
        FinishUpload<ImportFile<H>, E>,
        Result<(), Error<E>>,
    >)
        requires
            old(self)@.wf(),
        ensures
            final(self)@.wf(),
            final(self)@ == (SSTImporterView {
                files: old(self)@.files.remove(token),
                ..old(self)@
            }),
            step_content::<H, E, FinishUpload<ImportFile<H>, E>>(step) == (if old(
                self,
            )@.files.contains_key(token) {
                finish_upload_start::<H, E>(old(self)@.files[token])
            } else {
                Step::Return(Err(Error::TokenNotFound(token)))
            }),
            expects_reply::<H, E, FinishUpload<ImportFile<H>, E>>(step),
    {
        match self.remove(token) {
            Some(file) => match file.finish::<E>() {
                Step::Do(action, task) => Step::Do(action, FinishUpload::Finishing(task)),
                Step::Return((file, r)) => discard(file, r),
            },
            None => Step::Return(Err(Error::TokenNotFound(token))),
        }
    }

    /// Deletes a file in all of its stages.
    pub fn delete<E>(&self, meta: &SSTMeta) -> (step: Step<H, DeleteUpload, Result<(), Error<E>>>)
        ensures
            match (step, sst_path::<E>(meta@)) {
                (Step::Do(_, task), Ok(name)) => {
                    &&& are_paths(self@.dir, name, task.file.path)
                    &&& step == delete_upload_step(
                        delete_step::<H, E>(task.file.path, DeletePhase::CheckingSave),
                    )
                },
                (Step::Return(Err(e)), Err(expected)) => e == expected,
                _ => false,
            },
            expects_reply::<H, E, DeleteUpload>(step),
    {
        without_path(self.dir.delete(meta))
    }

    /// Has the storage engine take in an uploaded file.
    pub fn ingest<E>(&self, meta: &SSTMeta) -> (step: Step<H, IngestFile, Result<(), Error<E>>>)
        ensures
            match (step, sst_path::<E>(meta@)) {
                (Step::Do(_, task), Ok(name)) => {
                    &&& are_paths(self@.dir, name, task.path)
                    &&& ingests(task, meta@, task.path)
                    &&& step == ingest_step::<H, E>(task, IngestPhase::Preparing)
                },
                (Step::Return(Err(e)), Err(expected)) => e == expected,
                _ => false,
            },
            expects_reply::<H, E, IngestFile>(step),
    {
        self.dir.ingest(meta)
    }

    /// Lists the files that have been uploaded.
    pub fn list_ssts<E>(&self) -> (step: Step<H, ListDir, Result<Vec<SSTMeta>, Error<E>>>)
        ensures
            match step {
                Step::Do(action, _) => action == Action::<H>::ReadDir(self@.dir.root_dir),
                Step::Return(_) => false,
            },
            expects_reply::<H, E, ListDir>(step),
    {
        self.dir.list_ssts()
    }
}

} // verus!
