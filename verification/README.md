# sst_importer

A verified importer of SST files. A file is uploaded in pieces, checked against the checksum and the
length that its metadata announces, moved to its final path, and from there taken into a storage
engine.

The library performs no input or output. An operation is a *task*: it says which action has to be
done on the file system or in the engine, and goes on with the answer (`src/task.rs`). What a task
asks for next is fixed by its contract, for every answer, failures included.

| module | what it holds |
| --- | --- |
| `importer` | the uploads under way, each under its token |
| `import_dir` | the directory: creating, deleting, ingesting and listing files |
| `import_file` | one file that is being uploaded |
| `meta` | metadata, and the file name that carries its identity |
| `model` | a model of a file system and a storage engine, and what each task brings about on it |
| `history` | what several operations bring about on the model, one after the other |
| `task` | actions, answers, tasks |
| `identity`, `checksum` | the calls into the `uuid` and `crc` crates |
| `path`, `text`, `error` | paths as byte strings, decimal numbers, errors |

Paths are byte strings with `/` between their components, as on Unix.

A few functions are trusted: the wrappers of `uuid` and `crc` in `identity` and `checksum`, and that
of `std::str::from_utf8` in `path`. Each says in its doc comment what is taken for granted.

`app/` performs the actions with `std::fs`. It shares an importer between threads behind a lock, and
gives up the file of an upload that is dropped. The storage engine comes in through a trait.
