//! Operations as tasks: a task says what has to be done outside, and goes on with the answer.
//!
//! The host performs each action on the file system or the storage engine and hands the answer to
//! the task that asked for it, until the task returns.
use crate::path::FilePath;
use std::sync::Arc;
use vstd::prelude::*;

verus! {

/// Something to do outside. `H` is the host's handle of an open file.
#[derive(Debug, PartialEq, Eq)]
pub enum Action<H> {
    /// Find out whether there is something at a path.
    Exists(FilePath),
    /// Remove a file.
    RemoveFile(FilePath),
    /// Remove a directory and all that is in it.
    RemoveDirAll(FilePath),
    /// Create a directory, and those above it that are missing.
    CreateDirAll(FilePath),
    /// Create a file and open it for writing; an error where there is one already.
    CreateNew(FilePath),
    /// Move the file at the first path to the second.
    Rename(FilePath, FilePath),
    /// Write all of the bytes at the end of what was written to an open file.
    WriteAll(H, Arc<Vec<u8>>),
    /// Measure an open file.
    Length(H),
    /// Bring an open file to the disk, then close it.
    SyncAll(H),
    /// Close an open file.
    Close(H),
    /// List a directory.
    ReadDir(FilePath),
    /// Make a copy of the file at the first path, at the second, that can be moved into the engine.
    PrepareSst(FilePath, FilePath),
    /// Check that the file at a path fits the column family and has this length and checksum.
    ValidateSst { cf_name: String, path: FilePath, length: u64, crc32: u32 },
    /// Look up a column family.
    FindColumnFamily(String),
    /// Have the engine take in the file at a path for a column family, by moving or by copying it.
    IngestSst { cf_name: String, path: FilePath, move_files: bool },
}

/// One entry of a directory.
#[derive(Debug, PartialEq, Eq)]
pub enum DirEntry<E> {
    /// The entry could not be read.
    Unreadable(E),
    /// The path of the entry, and whether it is an ordinary file.
    Entry(FilePath, Result<bool, E>),
}

/// The answer to an action. `E` is the error type of the host.
#[derive(Debug, PartialEq, Eq)]
pub enum Event<H, E> {
    /// Whether there is something at the path.
    Found(bool),
    /// The action was done, or failed.
    Done(Result<(), E>),
    /// The file was opened, or could not be.
    Opened(Result<H, E>),
    /// The bytes were written to the file, or not all of them were.
    Written(H, Result<(), E>),
    /// The length of the file, or that it could not be measured.
    Measured(H, Result<u64, E>),
    /// The entries of the directory, or that it could not be opened.
    Listed(Result<Vec<DirEntry<E>>, E>),
}

/// The kinds of answers.
#[derive(Debug, Clone, Copy, PartialEq, Eq, Structural)]
pub enum Reply {
    Found,
    Done,
    Opened,
    Written,
    Measured,
    Listed,
}

/// The kind of answer that an action calls for.
pub open spec fn reply_to<H>(action: Action<H>) -> Reply {
    match action {
        Action::Exists(_) => Reply::Found,
        Action::CreateNew(_) => Reply::Opened,
        Action::WriteAll(_, _) => Reply::Written,
        Action::Length(_) => Reply::Measured,
        Action::ReadDir(_) => Reply::Listed,
        _ => Reply::Done,
    }
}

/// The kind of an answer.
pub open spec fn kind_of<H, E>(event: Event<H, E>) -> Reply {
    match event {
        Event::Found(_) => Reply::Found,
        Event::Done(_) => Reply::Done,
        Event::Opened(_) => Reply::Opened,
        Event::Written(_, _) => Reply::Written,
        Event::Measured(_, _) => Reply::Measured,
        Event::Listed(_) => Reply::Listed,
    }
}

/// What comes next in an operation: an action, and the task that goes on when it is answered, or
/// the result.
#[derive(Debug, PartialEq, Eq)]
pub enum Step<H, T, O> {
    Do(Action<H>, T),
    Return(O),
}

/// An operation that waits for an answer.
pub trait Task<H, E>: Sized {
    /// What the operation returns.
    type Out;

    /// The mathematical content of the task.
    type State;

    /// The mathematical content of the result.
    type Outcome;

    /// The content of the task.
    spec fn state(self) -> Self::State;

    /// The content of a result.
    spec fn outcome(out: Self::Out) -> Self::Outcome;

    /// The kind of answer that the task waits for.
    spec fn awaits(state: Self::State) -> Reply;

    /// How many answers the task needs at most.
    spec fn remaining(state: Self::State) -> nat;

    /// What comes next, given the answer.
    spec fn after(state: Self::State, event: Event<H, E>) -> Step<H, Self::State, Self::Outcome>;

    /// Goes on with the answer to the action that came with the task.
    fn next(self, event: Event<H, E>) -> (step: Step<H, Self, Self::Out>)
        requires
            kind_of(event) == Self::awaits(self.state()),
        ensures
            match step {
                Step::Do(action, task) => {
                    &&& Self::after(self.state(), event) == Step::<H, Self::State, Self::Outcome>::Do(
                        action,
                        task.state(),
                    )
                    &&& Self::awaits(task.state()) == reply_to(action)
                    &&& Self::remaining(task.state()) < Self::remaining(self.state())
                },
                Step::Return(out) => Self::after(self.state(), event) == Step::<
                    H,
                    Self::State,
                    Self::Outcome,
                >::Return(Self::outcome(out)),
            },
    ;
}

/// The content of a step.
pub open spec fn step_content<H, E, T: Task<H, E>>(step: Step<H, T, T::Out>) -> Step<
    H,
    T::State,
    T::Outcome,
> {
    match step {
        Step::Do(action, task) => Step::Do(action, task.state()),
        Step::Return(out) => Step::Return(T::outcome(out)),
    }
}

/// Whether the task of a step waits for the kind of answer that its action calls for.
pub open spec fn expects_reply<H, E, T: Task<H, E>>(step: Step<H, T, T::Out>) -> bool {
    match step {
        Step::Do(action, task) => T::awaits(task.state()) == reply_to(action),
        Step::Return(_) => true,
    }
}

} // verus!
