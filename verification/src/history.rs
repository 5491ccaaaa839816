//! What several operations bring about on the model of a host, one after the other.
use crate::checksum::crc32_ieee;
use crate::error::{Error, Token};
use crate::import_dir::{
    are_paths, create_start, delete_step, ingest_step, ingests, is_import_dir, lemma_files_apart,
    lemma_listed, lemma_listed_once, lemma_stages_differ, listed, lists_file, meta_at, CreateFile,
    DeleteFile, DeletePhase, ImportDir, IngestFile, IngestPhase,
};
use crate::import_file::{
    cleanup_start, AppendFile, CleanupFile, ImportFile, ImportFileView, ImportPath,
};
use crate::importer::{
    append_upload_after, append_upload_start, finish_upload_start, AppendUpload, FinishUpload,
    SSTImporterView,
};
use crate::meta::{
    identity_of, lemma_name_component, lemma_names_differ, lemma_path_round_trip,
    lemma_read_nameable, name_meta, name_text, nameable, path_meta, sst_file_name, SSTMeta,
    SSTMetaView,
};
use crate::model::{
    all_bytes, file_at, holds_file, ingested, lemma_append_upload, lemma_cleanup,
    lemma_create, lemma_delete, lemma_failed_append_upload, lemma_finish_upload, lemma_ingest,
    lemma_ingest_changes, lemma_upload, lists_dir, run, upload, uploading, verdict, HostError,
    HostModel,
};
use crate::path::{is_component, joined, lemma_joined_file_name, utf8_text, FilePath};
use crate::task::{DirEntry, Event};
use std::sync::Arc;
use vstd::prelude::*;
use vstd::utf8::encode_utf8;

verus! {

/// A file that is imported: uploaded in chunks and, maybe, ingested.
pub struct Import {
    pub meta: SSTMetaView,
    pub path: ImportPath,
    pub chunks: Seq<Arc<Vec<u8>>>,
    pub ingest: Option<IngestFile>,
}

/// What importing a file brings about.
pub open spec fn import(host: HostModel, job: Import) -> (
    HostModel,
    Option<Result<(), Error<HostError>>>,
) {
    let (uploaded, out) = upload(host, job.meta, job.path, job.chunks);
    match (out, job.ingest) {
        (Some(Ok(_)), Some(file)) => run::<IngestFile>(
            uploaded,
            ingest_step(file, IngestPhase::Preparing),
            4,
        ),
        _ => (uploaded, out),
    }
}

/// What importing files one after the other brings about, and whether all of it succeeds.
pub open spec fn import_all(host: HostModel, jobs: Seq<Import>) -> (HostModel, bool)
    decreases jobs.len(),
{
    if jobs.len() == 0 {
        (host, true)
    } else {
        let (before, succeeded) = import_all(host, jobs.drop_last());
        let (after, out) = import(before, jobs.last());
        (after, succeeded && (out matches Some(Ok(_))))
    }
}

/// Whether a file can be imported into a directory: its chunks have the announced checksum and
/// length, there is nothing at its three paths, and the engine has the column family that it is
/// ingested into.
pub open spec fn importable(host: HostModel, dir: ImportDir, job: Import) -> bool {
    &&& nameable(job.meta)
    &&& are_paths(dir, encode_utf8(sst_file_name(job.meta)), job.path)
    &&& crc32_ieee(all_bytes(job.chunks)) == job.meta.crc32
    &&& all_bytes(job.chunks).len() == job.meta.length
    &&& !host.exists_at(job.path.save@)
    &&& !host.exists_at(job.path.temp@)
    &&& !host.exists_at(job.path.clone@)
    &&& job.ingest matches Some(file) ==> ingests(file, job.meta, job.path)
        && host.engine.contains_key(job.meta.cf_name)
}

/// Whether files with different identities can be imported into a directory.
pub open spec fn all_importable(host: HostModel, dir: ImportDir, jobs: Seq<Import>) -> bool {
    &&& forall|i: int| 0 <= i < jobs.len() ==> importable(host, dir, #[trigger] jobs[i])
    &&& forall|i: int, j: int|
        0 <= i < j < jobs.len() ==> identity_of((#[trigger] jobs[i]).meta) != identity_of(
            (#[trigger] jobs[j]).meta,
        )
}

/// The contents that importing files adds to a column family.
pub open spec fn taken_in(jobs: Seq<Import>, cf_name: Seq<char>) -> Seq<Seq<u8>>
    decreases jobs.len(),
{
    if jobs.len() == 0 {
        Seq::empty()
    } else {
        let before = taken_in(jobs.drop_last(), cf_name);
        let job = jobs.last();
        if job.ingest is Some && job.meta.cf_name == cf_name {
            before.push(all_bytes(job.chunks))
        } else {
            before
        }
    }
}

/// Importing a file ends with exactly its bytes at the final path, and in its column family where it
/// is ingested. Nothing else has changed.
pub proof fn lemma_import(host: HostModel, dir: ImportDir, root: FilePath, job: Import)
    requires
        is_import_dir(dir, root),
        importable(host, dir, job),
    ensures
        import(host, job).1 == Some(Ok::<(), Error<HostError>>(())),
        import(host, job).0 == (HostModel {
            files: host.files.insert(job.path.save@, all_bytes(job.chunks)),
            engine: if job.ingest is Some {
                host.engine.insert(
                    job.meta.cf_name,
                    host.engine[job.meta.cf_name].push(all_bytes(job.chunks)),
                )
            } else {
                host.engine
            },
            ..host
        }),
{
    let name = encode_utf8(sst_file_name(job.meta));
    lemma_name_component(job.meta);
    lemma_stages_differ(dir, root, name, job.path);
    lemma_upload(host, job.meta, job.path, job.chunks);
    let uploaded = upload(host, job.meta, job.path, job.chunks).0;
    if job.ingest is Some {
        lemma_ingest(uploaded, job.ingest->0);
        assert(ingested(uploaded, job.ingest->0).files =~= uploaded.files);
    }
}

/// Importing files with different identities succeeds. Each ends with exactly its bytes at its final
/// path, the engine has taken in what was ingested, and nothing else has changed.
pub proof fn lemma_import_all(host: HostModel, dir: ImportDir, root: FilePath, jobs: Seq<Import>)
    requires
        is_import_dir(dir, root),
        all_importable(host, dir, jobs),
    ensures
        ({
            let (after, succeeded) = import_all(host, jobs);
            &&& succeeded
            &&& after.dirs == host.dirs
            &&& forall|path: Seq<u8>| #[trigger]
                after.files.contains_key(path) <==> host.files.contains_key(path) || exists|i: int|
                    0 <= i < jobs.len() && (#[trigger] jobs[i]).path.save@ == path
            &&& forall|path: Seq<u8>| #[trigger]
                host.files.contains_key(path) ==> after.files[path] == host.files[path]
            &&& forall|i: int|
                0 <= i < jobs.len() ==> after.files[(#[trigger] jobs[i]).path.save@] == all_bytes(
                    jobs[i].chunks,
                )
            &&& after.engine.dom() == host.engine.dom()
            &&& forall|cf_name: Seq<char>| #[trigger]
                host.engine.contains_key(cf_name) ==> after.engine[cf_name] == host.engine[cf_name]
                    + taken_in(jobs, cf_name)
        }),
    decreases jobs.len(),
{
    if jobs.len() == 0 {
        assert forall|cf_name: Seq<char>| #[trigger] host.engine.contains_key(cf_name) implies
            host.engine[cf_name] == host.engine[cf_name] + taken_in(jobs, cf_name) by {
            assert(host.engine[cf_name] + taken_in(jobs, cf_name) =~= host.engine[cf_name]);
        }
    } else {
        let rest = jobs.drop_last();
        let n = jobs.len() - 1;
        let job = jobs[n];
        assert forall|i: int| 0 <= i < n implies #[trigger] rest[i] == jobs[i] by {}
        lemma_import_all(host, dir, root, rest);
        let before = import_all(host, rest).0;
        let name = encode_utf8(sst_file_name(job.meta));
        lemma_name_component(job.meta);
        assert forall|i: int| 0 <= i < n implies (#[trigger] rest[i]).path.save@ != job.path.save@
            && rest[i].path.save@ != job.path.temp@ && rest[i].path.save@ != job.path.clone@ by {
            let other = jobs[i];
            lemma_names_differ(other.meta, job.meta);
            lemma_name_component(other.meta);
            lemma_files_apart(
                dir,
                encode_utf8(sst_file_name(other.meta)),
                other.path,
                name,
                job.path,
            );
        }
        assert(importable(before, dir, job)) by {
            assert(importable(host, dir, job));
            if job.ingest is Some {
                assert(host.engine.dom().contains(job.meta.cf_name));
                assert(before.engine.dom().contains(job.meta.cf_name));
            }
        }
        lemma_import(before, dir, root, job);
        let after = import_all(host, jobs).0;
        assert(after == import(before, job).0);
        assert forall|path: Seq<u8>| #[trigger] after.files.contains_key(path) <==>
            host.files.contains_key(path) || exists|i: int|
                0 <= i < jobs.len() && (#[trigger] jobs[i]).path.save@ == path by {
            if before.files.contains_key(path) && !host.files.contains_key(path) {
                let i = choose|i: int| 0 <= i < rest.len() && (#[trigger] rest[i]).path.save@ == path;
                assert(jobs[i].path.save@ == path);
            }
            if exists|i: int| 0 <= i < jobs.len() && (#[trigger] jobs[i]).path.save@ == path {
                let i = choose|i: int| 0 <= i < jobs.len() && (#[trigger] jobs[i]).path.save@ == path;
                if i < n {
                    assert(rest[i].path.save@ == path);
                }
            }
            if path == job.path.save@ {
                assert(jobs[n].path.save@ == path);
            }
        }
        assert forall|i: int| 0 <= i < jobs.len() implies after.files[(
        #[trigger] jobs[i]).path.save@] == all_bytes(jobs[i].chunks) by {
            if i < n {
                assert(rest[i] == jobs[i]);
            }
        }
        assert(after.engine.dom() =~= host.engine.dom());
        assert forall|cf_name: Seq<char>| #[trigger] host.engine.contains_key(cf_name) implies
            after.engine[cf_name] == host.engine[cf_name] + taken_in(jobs, cf_name) by {
            let bytes = all_bytes(job.chunks);
            assert((host.engine[cf_name] + taken_in(rest, cf_name)).push(bytes)
                =~= host.engine[cf_name] + taken_in(rest, cf_name).push(bytes));
        }
    }
}

/// Whether no file in a directory has the name of an imported file.
pub open spec fn no_imports(host: HostModel, dir: Seq<u8>) -> bool {
    forall|name: Seq<u8>| #[trigger]
        is_component(name) && host.files.contains_key(joined(dir, name)) ==> !(utf8_text(
            name,
        ) matches Some(text) && (name_meta::<HostError>(text) matches Some(Ok(_))))
}

/// The identities of imported files.
pub open spec fn identities(jobs: Seq<Import>) -> Seq<SSTMetaView> {
    jobs.map_values(|job: Import| identity_of(job.meta))
}

/// Files that were imported into a directory, ingested or not, are listed, each of them once and
/// under its identity. Nothing else is listed, whatever other files and directories there are.
pub proof fn lemma_imports_are_listed(
    host: HostModel,
    dir: ImportDir,
    root: FilePath,
    jobs: Seq<Import>,
    entries: Seq<DirEntry<HostError>>,
)
    requires
        is_import_dir(dir, root),
        all_importable(host, dir, jobs),
        no_imports(host, root@),
        lists_dir(import_all(host, jobs).0, root@, entries),
    ensures
        import_all(host, jobs).1,
        listed(entries) matches Ok(ssts) && {
            &&& ssts.len() == jobs.len()
            &&& ssts.no_duplicates()
            &&& ssts.to_set() == identities(jobs).to_set()
        },
{
    lemma_import_all(host, dir, root, jobs);
    lemma_listed(entries);
    let after = import_all(host, jobs).0;
    let ids = identities(jobs);
    let ssts = listed(entries)->Ok_0;
    // A file whose name carries metadata is one of those that were imported.
    assert forall|entry: FilePath| #[trigger]
        lists_file(entries, entry) && path_meta::<HostError>(entry) is Ok implies exists|k: int|
        0 <= k < jobs.len() && (#[trigger] jobs[k]).path.save@ == entry@ && path_meta::<HostError>(
            entry,
        )->Ok_0 == identity_of(jobs[k].meta) by {
        assert(holds_file(after, root@, entry@));
        let name = choose|name: Seq<u8>| #[trigger]
            is_component(name) && entry@ == joined(root@, name);
        lemma_joined_file_name(root@, name);
        assert(!host.files.contains_key(entry@));
        let k = choose|k: int| 0 <= k < jobs.len() && (#[trigger] jobs[k]).path.save@ == entry@;
        assert(importable(host, dir, jobs[k]));
        lemma_path_round_trip::<HostError>(root@, jobs[k].meta, entry);
    }
    assert forall|i: int, j: int|
        0 <= i < j < entries.len() && #[trigger] meta_at(entries, i) is Some && #[trigger] meta_at(
            entries,
            j,
        ) is Some implies meta_at(entries, i) != meta_at(entries, j) by {
        let a = entries[i]->Entry_0;
        let b = entries[j]->Entry_0;
        assert(lists_file(entries, a) && lists_file(entries, b));
        assert(file_at(entries, i) == Some(a@) && file_at(entries, j) == Some(b@));
        let k = choose|k: int|
            0 <= k < jobs.len() && (#[trigger] jobs[k]).path.save@ == a@ && meta_at(entries, i)->0
                == identity_of(jobs[k].meta);
        let l = choose|l: int|
            0 <= l < jobs.len() && (#[trigger] jobs[l]).path.save@ == b@ && meta_at(entries, j)->0
                == identity_of(jobs[l].meta);
        assert(k != l);
        if k < l {
            assert(identity_of(jobs[k].meta) != identity_of(jobs[l].meta));
        } else {
            assert(identity_of(jobs[l].meta) != identity_of(jobs[k].meta));
        }
    }
    lemma_listed_once(entries);
    assert forall|sst: SSTMetaView| ssts.contains(sst) <==> ids.contains(sst) by {
        if ssts.contains(sst) {
            let entry = choose|entry: FilePath| #[trigger]
                lists_file(entries, entry) && path_meta::<HostError>(entry) == Ok::<
                    SSTMetaView,
                    Error<HostError>,
                >(sst);
            let k = choose|k: int|
                0 <= k < jobs.len() && (#[trigger] jobs[k]).path.save@ == entry@ && sst
                    == identity_of(jobs[k].meta);
            assert(ids[k] == sst);
        }
        if ids.contains(sst) {
            let k = choose|k: int| 0 <= k < ids.len() && ids[k] == sst;
            let job = jobs[k];
            let name = encode_utf8(sst_file_name(job.meta));
            assert(importable(host, dir, job));
            lemma_name_component(job.meta);
            assert(is_component(name) && job.path.save@ == joined(root@, name));
            assert(after.files.contains_key(job.path.save@));
            assert(holds_file(after, root@, job.path.save@));
            let entry = choose|entry: FilePath| #[trigger]
                lists_file(entries, entry) && entry@ == job.path.save@;
            lemma_path_round_trip::<HostError>(root@, job.meta, entry);
            assert(lists_file(entries, entry));
        }
    }
    assert(ssts.to_set() =~= ids.to_set());
    assert(ids.no_duplicates()) by {
        assert forall|i: int, j: int| 0 <= i < j < ids.len() implies ids[i] != ids[j] by {
            assert(identity_of(jobs[i].meta) != identity_of(jobs[j].meta));
        }
    }
    ssts.unique_seq_to_set();
    ids.unique_seq_to_set();
}

/// What deleting files one after the other brings about, and whether all of it succeeds.
pub open spec fn delete_all(host: HostModel, paths: Seq<ImportPath>) -> (HostModel, bool)
    decreases paths.len(),
{
    if paths.len() == 0 {
        (host, true)
    } else {
        let (before, succeeded) = delete_all(host, paths.drop_last());
        let (after, out) = run::<DeleteFile>(
            before,
            delete_step(paths.last(), DeletePhase::CheckingSave),
            6,
        );
        (after, succeeded && (out matches Some(Ok(_))))
    }
}

/// Whether a path is one of the three of a file.
pub open spec fn is_stage(path: ImportPath, p: Seq<u8>) -> bool {
    p == path.save@ || p == path.temp@ || p == path.clone@
}

/// Deleting files removes exactly what is at their paths.
pub proof fn lemma_delete_all(host: HostModel, paths: Seq<ImportPath>)
    requires
        forall|i: int|
            #![trigger paths[i]]
            0 <= i < paths.len() ==> {
                &&& paths[i].save@ != paths[i].temp@
                &&& paths[i].save@ != paths[i].clone@
                &&& paths[i].temp@ != paths[i].clone@
                &&& !host.dirs.contains(paths[i].save@)
                &&& !host.dirs.contains(paths[i].temp@)
                &&& !host.dirs.contains(paths[i].clone@)
            },
    ensures
        ({
            let (after, succeeded) = delete_all(host, paths);
            &&& succeeded
            &&& after.dirs == host.dirs
            &&& after.engine == host.engine
            &&& forall|p: Seq<u8>| #[trigger]
                after.files.contains_key(p) <==> host.files.contains_key(p) && !exists|i: int|
                    0 <= i < paths.len() && is_stage(#[trigger] paths[i], p)
            &&& forall|p: Seq<u8>| #[trigger]
                after.files.contains_key(p) ==> after.files[p] == host.files[p]
        }),
    decreases paths.len(),
{
    if paths.len() > 0 {
        let rest = paths.drop_last();
        let n = paths.len() - 1;
        assert forall|i: int| 0 <= i < n implies #[trigger] rest[i] == paths[i] by {}
        lemma_delete_all(host, rest);
        let before = delete_all(host, rest).0;
        assert(paths[n] == paths.last());
        lemma_delete(before, paths.last());
        let after = delete_all(host, paths).0;
        assert forall|p: Seq<u8>| #[trigger] after.files.contains_key(p) <==>
            host.files.contains_key(p) && !exists|i: int|
                0 <= i < paths.len() && is_stage(#[trigger] paths[i], p) by {
            assert(after.files.contains_key(p) <==> before.files.contains_key(p) && !is_stage(
                paths[n],
                p,
            ));
            if exists|i: int| 0 <= i < paths.len() && is_stage(#[trigger] paths[i], p) {
                let i = choose|i: int| 0 <= i < paths.len() && is_stage(#[trigger] paths[i], p);
                if i < n {
                    assert(is_stage(rest[i], p));
                }
            }
            if exists|i: int| 0 <= i < rest.len() && is_stage(#[trigger] rest[i], p) {
                let i = choose|i: int| 0 <= i < rest.len() && is_stage(#[trigger] rest[i], p);
                assert(is_stage(paths[i], p));
            }
        }
    }
}

/// Whether every file in a directory that has the name of an imported file has it as an upload
/// writes it.
pub open spec fn named_as_uploaded(host: HostModel, dir: Seq<u8>) -> bool {
    forall|name: Seq<u8>|
        #![trigger is_component(name)]
        is_component(name) && host.files.contains_key(joined(dir, name)) ==> match utf8_text(name) {
            Some(text) => match name_meta::<HostError>(text) {
                Some(Ok(sst)) => name == encode_utf8(sst_file_name(sst)),
                _ => true,
            },
            None => true,
        }
}

/// When every listed file was deleted, nothing is listed any more.
pub proof fn lemma_delete_all_listed(
    host: HostModel,
    dir: ImportDir,
    root: FilePath,
    before: Seq<DirEntry<HostError>>,
    paths: Seq<ImportPath>,
    after: Seq<DirEntry<HostError>>,
)
    requires
        is_import_dir(dir, root),
        named_as_uploaded(host, root@),
        lists_dir(host, root@, before),
        listed(before) matches Ok(ssts) && {
            &&& paths.len() == ssts.len()
            &&& forall|i: int|
                0 <= i < ssts.len() ==> are_paths(
                    dir,
                    encode_utf8(sst_file_name(#[trigger] ssts[i])),
                    paths[i],
                )
        },
        forall|i: int|
            #![trigger paths[i]]
            0 <= i < paths.len() ==> {
                &&& !host.dirs.contains(paths[i].save@)
                &&& !host.dirs.contains(paths[i].temp@)
                &&& !host.dirs.contains(paths[i].clone@)
            },
        lists_dir(delete_all(host, paths).0, root@, after),
    ensures
        delete_all(host, paths).1,
        listed(after) == Ok::<Seq<SSTMetaView>, Error<HostError>>(Seq::empty()),
{
    let ssts = listed(before)->Ok_0;
    lemma_listed(before);
    lemma_listed(after);
    assert forall|i: int| 0 <= i < paths.len() implies (#[trigger] paths[i]).save@ != paths[i].temp@
        && paths[i].save@ != paths[i].clone@ && paths[i].temp@ != paths[i].clone@ by {
        assert(ssts.contains(ssts[i]));
        let entry = choose|entry: FilePath| #[trigger]
            lists_file(before, entry) && path_meta::<HostError>(entry) == Ok::<
                SSTMetaView,
                Error<HostError>,
            >(ssts[i]);
        lemma_read_nameable::<HostError>(name_text(entry@)->0);
        lemma_name_component(ssts[i]);
        lemma_stages_differ(dir, root, encode_utf8(sst_file_name(ssts[i])), paths[i]);
    }
    lemma_delete_all(host, paths);
    let left = listed(after)->Ok_0;
    if left.len() > 0 {
        let sst = left[0];
        assert(left.contains(sst));
        let entry = choose|entry: FilePath| #[trigger]
            lists_file(after, entry) && path_meta::<HostError>(entry) == Ok::<
                SSTMetaView,
                Error<HostError>,
            >(sst);
        assert(holds_file(delete_all(host, paths).0, root@, entry@));
        let name = choose|name: Seq<u8>| #[trigger]
            is_component(name) && entry@ == joined(root@, name);
        lemma_joined_file_name(root@, name);
        assert(name == encode_utf8(sst_file_name(sst)));
        assert(holds_file(host, root@, entry@));
        let earlier = choose|earlier: FilePath| #[trigger]
            lists_file(before, earlier) && earlier@ == entry@;
        assert(path_meta::<HostError>(earlier) == Ok::<SSTMetaView, Error<HostError>>(sst));
        assert(ssts.contains(sst));
        let i = choose|i: int| 0 <= i < ssts.len() && ssts[i] == sst;
        assert(is_stage(paths[i], entry@));
    }
    assert(left =~= Seq::<SSTMetaView>::empty());
}

/// Whether a file is at the paths that its metadata gives it in an import directory.
pub open spec fn belongs(dir: ImportDir, file: ImportFileView<Seq<u8>>) -> bool {
    &&& nameable(file.meta)
    &&& are_paths(dir, encode_utf8(sst_file_name(file.meta)), file.path)
}

/// Whether an importer and a host agree: every upload has its file open at its temporary path with
/// what was appended in it, and no two uploads have the same temporary path.
pub open spec fn consistent(
    host: HostModel,
    root: FilePath,
    importer: SSTImporterView<Seq<u8>>,
) -> bool {
    &&& is_import_dir(importer.dir, root)
    &&& forall|token: Token| #[trigger]
        importer.files.contains_key(token) ==> {
            &&& belongs(importer.dir, importer.files[token])
            &&& uploading(host, importer.files[token])
            &&& !host.dirs.contains(importer.files[token].path.temp@)
        }
    &&& forall|s: Token, t: Token| #[trigger]
        importer.files.contains_key(s) && #[trigger] importer.files.contains_key(t) && s != t
            ==> importer.files[s].path.temp@ != importer.files[t].path.temp@
}

/// An importer that has just been set up agrees with every host.
pub proof fn lemma_fresh_importer(
    host: HostModel,
    root: FilePath,
    importer: SSTImporterView<Seq<u8>>,
)
    requires
        is_import_dir(importer.dir, root),
        importer.files == Map::<Token, ImportFileView<Seq<u8>>>::empty(),
    ensures
        consistent(host, root, importer),
{
}

/// Two files of an import directory whose temporary paths differ have no path in common, and even
/// where they do not differ, none is another stage's.
proof fn lemma_belongs(
    dir: ImportDir,
    root: FilePath,
    meta_a: SSTMetaView,
    a: ImportPath,
    meta_b: SSTMetaView,
    b: ImportPath,
)
    requires
        is_import_dir(dir, root),
        nameable(meta_a),
        are_paths(dir, encode_utf8(sst_file_name(meta_a)), a),
        nameable(meta_b),
        are_paths(dir, encode_utf8(sst_file_name(meta_b)), b),
    ensures
        a.temp@ != b.save@,
        a.temp@ != b.clone@,
        a.save@ != b.temp@,
        a.temp@ != b.temp@ ==> a.save@ != b.save@,
{
    let name_a = encode_utf8(sst_file_name(meta_a));
    let name_b = encode_utf8(sst_file_name(meta_b));
    lemma_name_component(meta_a);
    lemma_name_component(meta_b);
    if name_a == name_b {
        lemma_stages_differ(dir, root, name_a, a);
    } else {
        lemma_files_apart(dir, name_a, a, name_b, b);
    }
}

/// Whether two uploads have no path in common.
pub open spec fn apart(a: ImportPath, b: ImportPath) -> bool {
    &&& a.temp@ != b.temp@
    &&& a.temp@ != b.save@
    &&& a.save@ != b.temp@
    &&& a.save@ != b.save@
}

/// Where an importer and a host agree, every upload is open, and any two uploads have no path in
/// common.
pub proof fn lemma_consistent(host: HostModel, root: FilePath, importer: SSTImporterView<Seq<u8>>)
    requires
        consistent(host, root, importer),
    ensures
        importer.wf(),
        forall|s: Token, t: Token| #[trigger]
            importer.files.contains_key(s) && #[trigger] importer.files.contains_key(t) && s != t
                ==> apart(importer.files[s].path, importer.files[t].path),
{
    assert forall|s: Token, t: Token| #[trigger]
        importer.files.contains_key(s) && #[trigger] importer.files.contains_key(t) && s
            != t implies apart(importer.files[s].path, importer.files[t].path) by {
        let a = importer.files[s];
        let b = importer.files[t];
        lemma_belongs(importer.dir, root, a.meta, a.path, b.meta, b.path);
    }
}

/// An importer that has other uploads.
pub open spec fn with_uploads(
    importer: SSTImporterView<Seq<u8>>,
    files: Map<Token, ImportFileView<Seq<u8>>>,
) -> SSTImporterView<Seq<u8>> {
    SSTImporterView { files, ..importer }
}

/// A new upload has another temporary path than those under way, because a file that exists is not
/// created again: creating a file keeps an importer in agreement with the host.
pub proof fn lemma_create_consistent(
    host: HostModel,
    root: FilePath,
    importer: SSTImporterView<Seq<u8>>,
    token: Token,
    meta: SSTMetaView,
    path: ImportPath,
)
    requires
        consistent(host, root, importer),
        !importer.files.contains_key(token),
        nameable(meta),
        are_paths(importer.dir, encode_utf8(sst_file_name(meta)), path),
    ensures
        ({
            let (after, out) = run::<CreateFile<SSTMeta>>(host, create_start(meta, path), 2);
            match out {
                Some(Ok(file)) => consistent(
                    after,
                    root,
                    with_uploads(importer, importer.files.insert(token, file)),
                ) && forall|t: Token| #[trigger]
                    importer.files.contains_key(t) ==> importer.files[t].path.temp@
                        != file.path.temp@,
                Some(Err(_)) => consistent(after, root, importer),
                None => false,
            }
        }),
{
    lemma_belongs(importer.dir, root, meta, path, meta, path);
    lemma_create(host, meta, path);
}

/// Appending to an upload keeps an importer in agreement with the host, whether the bytes are
/// written or not.
pub proof fn lemma_append_consistent(
    host: HostModel,
    root: FilePath,
    importer: SSTImporterView<Seq<u8>>,
    token: Token,
    data: Arc<Vec<u8>>,
    e: HostError,
)
    requires
        consistent(host, root, importer),
        importer.files.contains_key(token),
    ensures
        ({
            let file = importer.files[token];
            let (after, out) = run::<AppendUpload<ImportFile<Seq<u8>>, HostError>>(
                host,
                append_upload_start(file, data),
                1,
            );
            &&& out matches Some(Ok(grown)) && consistent(
                after,
                root,
                with_uploads(importer, importer.files.remove(token).insert(token, grown)),
            )
        }),
        ({
            let file = importer.files[token];
            let task = AppendUpload::Appending(
                AppendFile { file: file.with_handle(None), data },
            );
            let (after, out) = run::<AppendUpload<ImportFile<Seq<u8>>, HostError>>(
                host,
                append_upload_after(task, Event::Written(file.path.temp@, Err(e))),
                3,
            );
            &&& out matches Some(Err(_)) && consistent(
                after,
                root,
                with_uploads(importer, importer.files.remove(token)),
            )
        }),
{
    let file = importer.files[token];
    lemma_append_upload(host, file, data);
    lemma_failed_append_upload(host, file, data, e);
}

/// Ending an upload, or taking it out and giving it up, keeps an importer in agreement with the
/// host.
pub proof fn lemma_finish_consistent(
    host: HostModel,
    root: FilePath,
    importer: SSTImporterView<Seq<u8>>,
    token: Token,
)
    requires
        consistent(host, root, importer),
        importer.files.contains_key(token),
    ensures
        ({
            let file = importer.files[token];
            let rest = with_uploads(importer, importer.files.remove(token));
            let ended = run::<FinishUpload<ImportFile<Seq<u8>>, HostError>>(
                host,
                finish_upload_start(file),
                7,
            ).0;
            let given_up = run::<CleanupFile<ImportFile<Seq<u8>>>>(host, cleanup_start(file), 3).0;
            &&& consistent(ended, root, rest)
            &&& consistent(given_up, root, rest)
        }),
{
    let file = importer.files[token];
    lemma_finish_upload(host, file);
    lemma_cleanup(host, file);
    lemma_consistent(host, root, importer);
}

/// Deleting a file that is not being uploaded, and ingesting any file, keeps an importer in
/// agreement with the host.
pub proof fn lemma_delete_and_ingest_consistent(
    host: HostModel,
    root: FilePath,
    importer: SSTImporterView<Seq<u8>>,
    meta: SSTMetaView,
    path: ImportPath,
    ingest: IngestFile,
)
    requires
        consistent(host, root, importer),
        nameable(meta),
        are_paths(importer.dir, encode_utf8(sst_file_name(meta)), path),
        ingests(ingest, meta, path),
    ensures
        (forall|token: Token| #[trigger]
            importer.files.contains_key(token) ==> importer.files[token].path.temp@ != path.temp@)
            ==> consistent(
            run::<DeleteFile>(host, delete_step(path, DeletePhase::CheckingSave), 6).0,
            root,
            importer,
        ),
        consistent(
            run::<IngestFile>(host, ingest_step(ingest, IngestPhase::Preparing), 4).0,
            root,
            importer,
        ),
{
    assert forall|token: Token| #[trigger] importer.files.contains_key(token) implies {
        &&& importer.files[token].path.temp@ != path.save@
        &&& importer.files[token].path.temp@ != path.clone@
    } by {
        let file = importer.files[token];
        lemma_belongs(importer.dir, root, file.meta, file.path, meta, path);
    }
    lemma_ingest_changes(host, ingest);
    let after = run::<IngestFile>(host, ingest_step(ingest, IngestPhase::Preparing), 4).0;
    assert forall|token: Token| #[trigger] importer.files.contains_key(token) implies uploading(
        after,
        importer.files[token],
    ) by {
        let temp = importer.files[token].path.temp@;
        assert(host.files.remove(path.clone@).contains_key(temp));
        assert(after.files.remove(path.clone@).contains_key(temp));
        assert(after.files.remove(path.clone@)[temp] == host.files.remove(path.clone@)[temp]);
    }
    reveal_with_fuel(run, 8);
}

/// The uploads of an importer do not disturb each other: while one grows, is ended or is given up,
/// every other stays under way with what was appended to it, and will end as it would have.
pub proof fn lemma_uploads_independent(
    host: HostModel,
    root: FilePath,
    importer: SSTImporterView<Seq<u8>>,
    token: Token,
    data: Arc<Vec<u8>>,
)
    requires
        consistent(host, root, importer),
        importer.files.contains_key(token),
    ensures
        ({
            let file = importer.files[token];
            let grown = run::<AppendUpload<ImportFile<Seq<u8>>, HostError>>(
                host,
                append_upload_start(file, data),
                1,
            ).0;
            let ended = run::<FinishUpload<ImportFile<Seq<u8>>, HostError>>(
                host,
                finish_upload_start(file),
                7,
            ).0;
            let given_up = run::<CleanupFile<ImportFile<Seq<u8>>>>(host, cleanup_start(file), 3).0;
            forall|other: Token| #[trigger]
                importer.files.contains_key(other) && other != token ==> {
                    let b = importer.files[other];
                    &&& uploading(grown, b) && verdict(grown, b) == verdict(host, b)
                    &&& uploading(ended, b) && verdict(ended, b) == verdict(host, b)
                    &&& uploading(given_up, b) && verdict(given_up, b) == verdict(host, b)
                }
        }),
{
    let file = importer.files[token];
    lemma_append_upload(host, file, data);
    lemma_finish_upload(host, file);
    lemma_cleanup(host, file);
    lemma_consistent(host, root, importer);
}

} // verus!
