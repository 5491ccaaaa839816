//! Imports on a file system and a storage engine that are kept in memory.
use sst_importer::error::{Corruption, Error, Token};
use sst_importer::identity::UuidError;
use sst_importer::import_dir::{list_entries, ImportDir};
use sst_importer::import_file::{ImportFile, ImportPath};
use sst_importer::importer::SSTImporter;
use sst_importer::meta::SSTMeta;
use sst_importer::path::FilePath;
use sst_importer::task::{Action, DirEntry, Event, Step, Task};
use std::collections::{BTreeMap, BTreeSet};
use uuid::Uuid;

type Handle = usize;
type Failure = Error<String>;

/// A file system and a storage engine. A storage file holds one key per byte.
#[derive(Default)]
struct Host {
    files: BTreeMap<String, Vec<u8>>,
    dirs: BTreeSet<String>,
    open: Vec<Option<String>>,
    column_families: BTreeMap<String, BTreeSet<u8>>,
    /// Every action, in words.
    log: Vec<String>,
    /// The action that fails, by the word that it starts with in the log.
    broken: Option<&'static str>,
}

fn text(path: &FilePath) -> String {
    path.to_str().unwrap().to_string()
}

fn is_in(path: &str, dir: &str) -> bool {
    path.starts_with(&format!("{}/", dir))
}

impl Host {
    fn has(&self, path: &FilePath) -> bool {
        let path = text(path);
        self.files.contains_key(&path) || self.dirs.contains(&path)
    }

    fn is_open(&self, path: &FilePath) -> bool {
        self.open.contains(&Some(text(path)))
    }

    fn note(&mut self, word: &str, rest: &[&str]) -> Result<(), String> {
        let mut line = word.to_string();
        for part in rest {
            line = format!("{} {}", line, part);
        }
        self.log.push(line);
        if self.broken == Some(word) {
            return Err(format!("{} is broken", word));
        }
        Ok(())
    }

    fn remove_file(&mut self, path: &str) -> Result<(), String> {
        self.note("remove", &[path])?;
        self.files.remove(path).map(|_| ()).ok_or("no file".to_string())
    }

    fn remove_dir_all(&mut self, path: &str) -> Result<(), String> {
        self.note("clear", &[path])?;
        if !self.dirs.remove(path) {
            return Err("no directory".to_string());
        }
        self.dirs.retain(|p| !is_in(p, path));
        self.files.retain(|p, _| !is_in(p, path));
        Ok(())
    }

    fn create_dir_all(&mut self, path: &str) -> Result<(), String> {
        self.note("mkdir", &[path])?;
        for (i, c) in path.char_indices() {
            if c == '/' && i > 0 {
                self.dirs.insert(path[..i].to_string());
            }
        }
        self.dirs.insert(path.to_string());
        Ok(())
    }

    fn create_new(&mut self, path: &FilePath) -> Result<Handle, String> {
        self.note("open", &[&text(path)])?;
        if self.has(path) {
            return Err("there is a file".to_string());
        }
        self.files.insert(text(path), Vec::new());
        self.open.push(Some(text(path)));
        Ok(self.open.len() - 1)
    }

    fn rename(&mut self, from: &str, to: &str) -> Result<(), String> {
        self.note("rename", &[from, to])?;
        let content = self.files.remove(from).ok_or("no file")?;
        self.files.insert(to.to_string(), content);
        Ok(())
    }

    fn write_all(&mut self, handle: Handle, data: &[u8]) -> Result<(), String> {
        self.note("write", &[&data.len().to_string()])?;
        let path = self.open[handle].clone().expect("the file is open");
        self.files.get_mut(&path).unwrap().extend_from_slice(data);
        Ok(())
    }

    fn length(&mut self, handle: Handle) -> Result<u64, String> {
        self.note("measure", &[])?;
        let path = self.open[handle].clone().expect("the file is open");
        Ok(self.files[&path].len() as u64)
    }

    fn close(&mut self, handle: Handle) {
        assert!(self.open[handle].take().is_some());
    }

    fn read_dir(&mut self, dir: &str) -> Result<Vec<DirEntry<String>>, String> {
        self.note("list", &[dir])?;
        let direct = |p: &str| is_in(p, dir) && !p[dir.len() + 1..].contains('/');
        let files = self.files.keys().map(|p| (p, true));
        let dirs = self.dirs.iter().map(|p| (p, false));
        Ok(files
            .chain(dirs)
            .filter(|(p, _)| direct(p))
            .map(|(p, is_file)| DirEntry::Entry(FilePath::from_text(p), Ok(is_file)))
            .collect())
    }

    fn prepare(&mut self, from: &str, to: &str) -> Result<(), String> {
        self.note("prepare", &[from, to])?;
        let content = self.files.get(from).cloned().ok_or("no file")?;
        self.files.insert(to.to_string(), content);
        Ok(())
    }

    fn validate(&mut self, cf: &str, path: &str, length: u64, crc32: u32) -> Result<(), String> {
        let (length_text, crc32_text) = (length.to_string(), crc32.to_string());
        self.note("validate", &[cf, path, &length_text, &crc32_text])?;
        let content = self.files.get(path).ok_or("no file")?;
        if content.len() as u64 != length || calc_data_crc32(content) != crc32 {
            return Err("the copy is wrong".to_string());
        }
        Ok(())
    }

    fn find(&mut self, cf: &str) -> Result<(), String> {
        self.note("find", &[cf])?;
        self.column_families.get(cf).map(|_| ()).ok_or("no column family".to_string())
    }

    fn ingest(&mut self, cf: &str, path: &str, move_files: bool) -> Result<(), String> {
        self.note("ingest", &[cf, path, &move_files.to_string()])?;
        let content = self.files.get(path).cloned().ok_or("no file")?;
        if move_files {
            self.files.remove(path);
        }
        self.column_families.get_mut(cf).unwrap().extend(content);
        Ok(())
    }

    fn perform(&mut self, action: Action<Handle>) -> Event<Handle, String> {
        match action {
            Action::Exists(path) => {
                self.log.push(format!("exists {}", text(&path)));
                Event::Found(self.has(&path))
            }
            Action::RemoveFile(path) => Event::Done(self.remove_file(&text(&path))),
            Action::RemoveDirAll(path) => Event::Done(self.remove_dir_all(&text(&path))),
            Action::CreateDirAll(path) => Event::Done(self.create_dir_all(&text(&path))),
            Action::CreateNew(path) => Event::Opened(self.create_new(&path)),
            Action::Rename(from, to) => Event::Done(self.rename(&text(&from), &text(&to))),
            Action::WriteAll(handle, data) => {
                let r = self.write_all(handle, &data);
                Event::Written(handle, r)
            }
            Action::Length(handle) => {
                let r = self.length(handle);
                Event::Measured(handle, r)
            }
            Action::SyncAll(handle) => {
                let r = self.note("sync", &[]);
                self.close(handle);
                Event::Done(r)
            }
            Action::Close(handle) => {
                self.log.push("close".to_string());
                self.close(handle);
                Event::Done(Ok(()))
            }
            Action::ReadDir(path) => Event::Listed(self.read_dir(&text(&path))),
            Action::PrepareSst(from, to) => Event::Done(self.prepare(&text(&from), &text(&to))),
            Action::ValidateSst { cf_name, path, length, crc32 } => {
                Event::Done(self.validate(&cf_name, &text(&path), length, crc32))
            }
            Action::FindColumnFamily(cf_name) => Event::Done(self.find(&cf_name)),
            Action::IngestSst { cf_name, path, move_files } => {
                Event::Done(self.ingest(&cf_name, &text(&path), move_files))
            }
        }
    }

    /// Performs the actions of an operation until it returns.
    fn run<T: Task<Handle, String>>(&mut self, step: Step<Handle, T, T::Out>) -> T::Out {
        let mut step = step;
        loop {
            match step {
                Step::Do(action, task) => step = task.next(self.perform(action)),
                Step::Return(out) => return out,
            }
        }
    }

    /// What was done since the last call.
    fn actions(&mut self) -> Vec<String> {
        std::mem::take(&mut self.log)
    }
}

fn calc_data_crc32(data: &[u8]) -> u32 {
    crc::crc32::checksum_ieee(data)
}

fn path(text: &str) -> FilePath {
    FilePath::from_text(text)
}

fn sample_path() -> ImportPath {
    ImportPath { save: path("/t/save"), temp: path("/t/temp"), clone: path("/t/clone") }
}

fn new_file(
    host: &mut Host,
    meta: &SSTMeta,
    path: &ImportPath,
) -> Result<ImportFile<Handle>, Failure> {
    host.run(ImportFile::create(meta.clone(), path.clone()))
}

fn append(
    host: &mut Host,
    file: ImportFile<Handle>,
    data: &[u8],
) -> (ImportFile<Handle>, Result<(), Failure>) {
    assert!(file.is_open());
    host.run(file.append(data))
}

fn finish(host: &mut Host, file: ImportFile<Handle>) -> (ImportFile<Handle>, Result<(), Failure>) {
    assert!(file.is_open());
    host.run(file.finish())
}

fn cleanup(host: &mut Host, file: ImportFile<Handle>) -> Result<(), Failure> {
    host.run(file.cleanup()).1
}

fn open_dir(host: &mut Host, root: &str) -> ImportDir {
    let r: Result<ImportDir, Failure> = host.run(ImportDir::new(path(root)));
    r.unwrap()
}

fn open_importer(host: &mut Host) -> SSTImporter<Handle> {
    let r: Result<ImportDir, Failure> = host.run(SSTImporter::<Handle>::new(path("/import")));
    let importer = SSTImporter::new_done(r).unwrap();
    host.actions();
    importer
}

fn create_upload(
    host: &mut Host,
    importer: &mut SSTImporter<Handle>,
    token: Token,
    meta: &SSTMeta,
) -> Result<(), Failure> {
    let r = host.run(importer.create(token, meta));
    importer.create_done(token, r)
}

fn append_upload(
    host: &mut Host,
    importer: &mut SSTImporter<Handle>,
    token: Token,
    data: &[u8],
) -> Result<(), Failure> {
    let r = host.run(importer.append(token, data));
    importer.append_done(token, r)
}

fn finish_upload(
    host: &mut Host,
    importer: &mut SSTImporter<Handle>,
    token: Token,
) -> Result<(), Failure> {
    host.run(importer.finish(token))
}

/// Metadata of a file with these bytes, and where the file is in its stages.
fn announce(id: u8, data: &[u8]) -> (SSTMeta, ImportPath) {
    let mut meta = SSTMeta::new();
    meta.uuid = vec![id; 16];
    meta.crc32 = calc_data_crc32(data);
    meta.length = data.len() as u64;
    meta.cf_name = "default".to_string();
    meta.region_id = 4;
    let d = format!("{:02x}", id);
    let (two, four, six) = (d.repeat(2), d.repeat(4), d.repeat(6));
    let name = format!("{}-{}-{}-{}-{}_4_0_0.sst", four, two, two, two, six);
    let path = ImportPath {
        save: path(&format!("/import/{}", name)),
        temp: path(&format!("/import/.temp/{}", name)),
        clone: path(&format!("/import/.clone/{}", name)),
    };
    (meta, path)
}

fn gen_sst_file(host: &mut Host, path: &str, range: (u8, u8)) -> (SSTMeta, Vec<u8>) {
    let data: Vec<u8> = (range.0..range.1).collect();
    host.files.insert(path.to_string(), data.clone());
    let mut meta = SSTMeta::new();
    meta.uuid = Uuid::new_v4().as_bytes().to_vec();
    meta.crc32 = calc_data_crc32(&data);
    meta.length = data.len() as u64;
    meta.cf_name = "default".to_string();
    (meta, data)
}

#[test]
fn test_import_dir() {
    let mut host = Host::default();
    let dir = open_dir(&mut host, "/tmp/test_import_dir");

    let mut meta = SSTMeta::new();
    meta.uuid = Uuid::new_v4().as_bytes().to_vec();

    let path = dir.join::<String>(&meta).unwrap();

    // Test ImportDir::create()
    {
        let r: Result<ImportFile<Handle>, Failure> = host.run(dir.create(&meta));
        let file = r.ok().unwrap();
        assert!(host.has(&path.temp));
        assert!(!host.has(&path.save));
        assert!(!host.has(&path.clone));
        // Cannot create the same file again.
        let again: Result<ImportFile<Handle>, Failure> = host.run(dir.create(&meta));
        assert!(again.is_err());
        cleanup(&mut host, file).unwrap();
    }

    // Test ImportDir::delete()
    {
        host.files.insert(text(&path.temp), Vec::new());
        host.files.insert(text(&path.save), Vec::new());
        host.files.insert(text(&path.clone), Vec::new());
        let r: Result<ImportPath, Failure> = host.run(dir.delete(&meta));
        r.unwrap();
        assert!(!host.has(&path.temp));
        assert!(!host.has(&path.save));
        assert!(!host.has(&path.clone));
    }

    // Test ImportDir::ingest()

    host.dirs.insert("/tmp/test_import_dir/db".to_string());
    host.column_families.insert("default".to_string(), BTreeSet::new());

    let cases = vec![(0, 10), (5, 15), (10, 20), (0, 100)];

    let mut ingested = Vec::new();

    for (i, &range) in cases.iter().enumerate() {
        let path = format!("/tmp/test_import_dir/{}.sst", i);
        let (meta, data) = gen_sst_file(&mut host, &path, range);

        let r: Result<ImportFile<Handle>, Failure> = host.run(dir.create(&meta));
        let (f, r) = append(&mut host, r.ok().unwrap(), &data);
        r.unwrap();
        let (f, r) = finish(&mut host, f);
        r.unwrap();

        let r: Result<(), Failure> = host.run(dir.ingest(&meta));
        r.unwrap();
        for key in range.0..range.1 {
            assert!(host.column_families["default"].contains(&key));
        }

        ingested.push(meta);
        cleanup(&mut host, f).unwrap();
    }

    let r: Result<Vec<SSTMeta>, Failure> = host.run(dir.list_ssts());
    let ssts = r.unwrap();
    assert_eq!(ssts.len(), ingested.len());
    for sst in &ssts {
        ingested.iter().find(|s| s.uuid == sst.uuid).unwrap();
        let r: Result<ImportPath, Failure> = host.run(dir.delete(sst));
        r.unwrap();
    }
    let r: Result<Vec<SSTMeta>, Failure> = host.run(dir.list_ssts());
    assert!(r.unwrap().is_empty());
}

#[test]
fn test_import_file() {
    let mut host = Host::default();

    let path = sample_path();

    let data = b"test_data";
    let crc32 = calc_data_crc32(data);

    let mut meta = SSTMeta::new();

    {
        let f = new_file(&mut host, &meta, &path).ok().unwrap();
        // Cannot create the same file again.
        assert!(new_file(&mut host, &meta, &path).is_err());
        let (f, r) = append(&mut host, f, data);
        r.unwrap();
        // Invalid crc32 and length.
        let (f, r) = finish(&mut host, f);
        assert!(r.is_err());
        assert!(host.has(&path.temp));
        assert!(!host.has(&path.save));
        cleanup(&mut host, f).unwrap();
    }

    meta.crc32 = crc32;

    {
        let f = new_file(&mut host, &meta, &path).ok().unwrap();
        let (f, r) = append(&mut host, f, data);
        r.unwrap();
        // Invalid length.
        let (f, r) = finish(&mut host, f);
        assert!(r.is_err());
        cleanup(&mut host, f).unwrap();
    }

    meta.length = data.len() as u64;

    {
        let f = new_file(&mut host, &meta, &path).ok().unwrap();
        let (f, r) = append(&mut host, f, data);
        r.unwrap();
        let (f, r) = finish(&mut host, f);
        r.unwrap();
        assert!(!host.has(&path.temp));
        assert!(host.has(&path.save));
        cleanup(&mut host, f).unwrap();
    }
}

#[test]
fn a_directory_is_set_up_with_empty_subdirectories() {
    let mut host = Host::default();
    let dir = open_dir(&mut host, "/data/import");
    assert_eq!(
        host.actions(),
        [
            "exists /data/import/.temp",
            "exists /data/import/.clone",
            "mkdir /data/import/.temp",
            "mkdir /data/import/.clone",
        ]
    );
    assert_eq!(
        dir,
        ImportDir {
            root_dir: path("/data/import"),
            temp_dir: path("/data/import/.temp"),
            clone_dir: path("/data/import/.clone"),
        }
    );

    host.files.insert("/data/import/kept".to_string(), vec![1]);
    host.files.insert("/data/import/.temp/left".to_string(), vec![2]);
    host.files.insert("/data/import/.clone/left".to_string(), vec![3]);
    assert_eq!(open_dir(&mut host, "/data/import"), dir);
    assert_eq!(
        host.actions(),
        [
            "exists /data/import/.temp",
            "clear /data/import/.temp",
            "exists /data/import/.clone",
            "clear /data/import/.clone",
            "mkdir /data/import/.temp",
            "mkdir /data/import/.clone",
        ]
    );
    assert_eq!(host.files.keys().collect::<Vec<_>>(), ["/data/import/kept"]);
}

#[test]
fn setting_up_a_directory_ends_with_the_first_failure() {
    for (broken, actions) in [("clear", 2), ("mkdir", 5)] {
        let mut host = Host::default();
        host.dirs.insert("/import/.temp".to_string());
        if broken == "mkdir" {
            host.dirs.insert("/import/.clone".to_string());
        }
        host.broken = Some(broken);
        let r: Result<ImportDir, Failure> = host.run(SSTImporter::<Handle>::new(path("/import")));
        assert_eq!(r, Err(Error::Io(format!("{} is broken", broken))));
        assert_eq!(host.actions().len(), actions);
        let importer: Result<SSTImporter<Handle>, Failure> = SSTImporter::new_done(r);
        assert_eq!(importer.err(), Some(Error::Io(format!("{} is broken", broken))));
    }
}

#[test]
fn the_paths_of_a_file_are_in_three_directories() {
    let mut host = Host::default();
    let dir = open_dir(&mut host, "/import");
    let (meta, expected) = announce(0xab, b"");
    assert!(dir.join::<String>(&meta) == Ok(expected));
    assert_eq!(
        dir.join::<String>(&meta).unwrap().save,
        path("/import/abababab-abab-abab-abab-abababababab_4_0_0.sst")
    );
}

#[test]
fn metadata_without_an_identifier_is_refused_everywhere() {
    let mut host = Host::default();
    let mut importer = open_importer(&mut host);
    let meta = SSTMeta::new();
    let refused: Failure = Error::Uuid(UuidError::InvalidLength(0));
    assert_eq!(create_upload(&mut host, &mut importer, 1, &meta).err(), Some(refused));
    let r: Result<(), Failure> = host.run(importer.delete(&meta));
    assert_eq!(r, Err(Error::Uuid(UuidError::InvalidLength(0))));
    let r: Result<(), Failure> = host.run(importer.ingest(&meta));
    assert_eq!(r, Err(Error::Uuid(UuidError::InvalidLength(0))));
    assert!(host.actions().is_empty());
    assert!(!importer.contains(1));
}

#[test]
fn tokens_count_up_from_one() {
    let mut host = Host::default();
    let mut importer = open_importer(&mut host);
    let tokens: Vec<Token> = (0..4).map(|_| importer.token()).collect();
    assert_eq!(tokens, [1, 2, 3, 4]);
}

#[test]
fn an_upload_moves_its_bytes_to_the_final_path() {
    let mut host = Host::default();
    let mut importer = open_importer(&mut host);
    let (meta, path) = announce(1, b"123456789");
    assert_eq!(meta.crc32, 0xcbf4_3926);
    let token = importer.token();
    assert_eq!(create_upload(&mut host, &mut importer, token, &meta), Ok(()));
    assert!(importer.contains(token));
    for chunk in [&b"123"[..], b"", b"4567", b"89"] {
        assert_eq!(append_upload(&mut host, &mut importer, token, chunk), Ok(()));
        assert!(importer.contains(token));
    }
    assert_eq!(host.files[&text(&path.temp)], b"123456789");
    assert!(!host.has(&path.save));
    assert_eq!(finish_upload(&mut host, &mut importer, token), Ok(()));
    assert_eq!(host.files[&text(&path.save)], b"123456789");
    assert!(!host.has(&path.temp));
    assert!(!host.has(&path.clone));
    assert!(!importer.contains(token));
    let (save, temp) = (text(&path.save), text(&path.temp));
    assert_eq!(
        host.actions(),
        [
            format!("exists {}", save),
            format!("open {}", temp),
            "write 3".to_string(),
            "write 0".to_string(),
            "write 4".to_string(),
            "write 2".to_string(),
            "measure".to_string(),
            "sync".to_string(),
            format!("exists {}", save),
            format!("rename {} {}", temp, save),
            format!("exists {}", temp),
        ]
    );
}

#[test]
fn an_upload_of_nothing_succeeds() {
    let mut host = Host::default();
    let mut importer = open_importer(&mut host);
    let (meta, path) = announce(1, b"");
    assert_eq!((meta.crc32, meta.length), (0, 0));
    assert_eq!(create_upload(&mut host, &mut importer, 5, &meta), Ok(()));
    assert_eq!(finish_upload(&mut host, &mut importer, 5), Ok(()));
    assert_eq!(host.files[&text(&path.save)], b"");
}

#[test]
fn a_token_is_used_by_one_upload_at_a_time() {
    let mut host = Host::default();
    let mut importer = open_importer(&mut host);
    let (meta, path) = announce(1, b"x");
    let (other, other_path) = announce(2, b"y");
    assert_eq!(create_upload(&mut host, &mut importer, 7, &meta), Ok(()));
    assert_eq!(
        create_upload(&mut host, &mut importer, 7, &other),
        Err(Error::TokenExists(7))
    );
    assert!(!host.has(&other_path.temp));
    assert!(host.has(&path.temp));
    // When the upload has ended, its token can be used again.
    assert!(finish_upload(&mut host, &mut importer, 7).is_err());
    assert_eq!(create_upload(&mut host, &mut importer, 7, &other), Ok(()));
}

#[test]
fn an_unknown_token_is_refused() {
    let mut host = Host::default();
    let mut importer = open_importer(&mut host);
    assert_eq!(
        append_upload(&mut host, &mut importer, 3, b"x"),
        Err(Error::TokenNotFound(3))
    );
    assert_eq!(finish_upload(&mut host, &mut importer, 3), Err(Error::TokenNotFound(3)));
    assert!(importer.remove(3).is_none());
    assert!(host.actions().is_empty());
}

#[test]
fn a_file_that_has_been_uploaded_is_not_created_again() {
    let mut host = Host::default();
    let mut importer = open_importer(&mut host);
    let (meta, path) = announce(1, b"x");
    host.files.insert(text(&path.save), b"earlier".to_vec());
    assert_eq!(
        create_upload(&mut host, &mut importer, 1, &meta),
        Err(Error::FileExists(path.save.clone()))
    );
    assert!(!importer.contains(1));
    assert!(!host.has(&path.temp));
    assert_eq!(host.files[&text(&path.save)], b"earlier");
}

#[test]
fn a_file_that_is_being_uploaded_is_not_created_again() {
    let mut host = Host::default();
    let mut importer = open_importer(&mut host);
    let (meta, path) = announce(1, b"x");
    assert_eq!(create_upload(&mut host, &mut importer, 1, &meta), Ok(()));
    assert_eq!(append_upload(&mut host, &mut importer, 1, b"x"), Ok(()));
    assert_eq!(
        create_upload(&mut host, &mut importer, 2, &meta),
        Err(Error::Io("there is a file".to_string()))
    );
    assert!(!importer.contains(2));
    assert_eq!(host.files[&text(&path.temp)], b"x");
    assert_eq!(finish_upload(&mut host, &mut importer, 1), Ok(()));
}

#[test]
fn bytes_that_cannot_be_written_end_the_upload() {
    let mut host = Host::default();
    let mut importer = open_importer(&mut host);
    let (meta, path) = announce(1, b"xy");
    assert_eq!(create_upload(&mut host, &mut importer, 1, &meta), Ok(()));
    assert_eq!(append_upload(&mut host, &mut importer, 1, b"x"), Ok(()));
    host.actions();
    host.broken = Some("write");
    assert_eq!(
        append_upload(&mut host, &mut importer, 1, b"y"),
        Err(Error::Io("write is broken".to_string()))
    );
    let temp = text(&path.temp);
    assert_eq!(
        host.actions(),
        [
            "write 1".to_string(),
            "close".to_string(),
            format!("exists {}", temp),
            format!("remove {}", temp),
        ]
    );
    assert!(!host.has(&path.temp));
    assert_eq!(
        append_upload(&mut host, &mut importer, 1, b"y"),
        Err(Error::TokenNotFound(1))
    );
}

#[test]
fn bytes_that_were_not_written_do_not_count() {
    let mut host = Host::default();
    let (meta, path) = announce(1, b"xy");
    let file = new_file(&mut host, &meta, &path).ok().unwrap();
    let (file, r) = append(&mut host, file, b"x");
    assert_eq!(r, Ok(()));
    host.broken = Some("write");
    let (file, r) = append(&mut host, file, b"lost");
    assert_eq!(r, Err(Error::Io("write is broken".to_string())));
    host.broken = None;
    let (file, r) = append(&mut host, file, b"y");
    assert_eq!(r, Ok(()));
    let (file, r) = finish(&mut host, file);
    assert_eq!(r, Ok(()));
    assert!(!file.is_open());
    assert_eq!(host.files[&text(&path.save)], b"xy");
}

#[test]
fn a_wrong_checksum_ends_the_upload_without_a_trace() {
    let mut host = Host::default();
    let mut importer = open_importer(&mut host);
    let (mut meta, path) = announce(1, b"123456789");
    meta.crc32 = 17;
    assert_eq!(create_upload(&mut host, &mut importer, 1, &meta), Ok(()));
    assert_eq!(append_upload(&mut host, &mut importer, 1, b"123456789"), Ok(()));
    host.actions();
    let e = finish_upload(&mut host, &mut importer, 1).err().unwrap();
    let corruption = Corruption::Crc32(0xcbf4_3926, 17);
    assert_eq!(e, Error::FileCorrupted(path.temp.clone(), corruption));
    assert_eq!(corruption.reason(), "crc32 3421780262, expect 17");
    // The file is not measured when its checksum is wrong.
    let temp = text(&path.temp);
    assert_eq!(
        host.actions(),
        ["close".to_string(), format!("exists {}", temp), format!("remove {}", temp)]
    );
    assert!(!host.has(&path.temp));
    assert!(!host.has(&path.save));
    assert!(!importer.contains(1));
}

#[test]
fn a_wrong_length_ends_the_upload_without_a_trace() {
    let mut host = Host::default();
    let mut importer = open_importer(&mut host);
    let (mut meta, path) = announce(1, b"123456789");
    meta.length = 10;
    assert_eq!(create_upload(&mut host, &mut importer, 1, &meta), Ok(()));
    assert_eq!(append_upload(&mut host, &mut importer, 1, b"123456789"), Ok(()));
    let e = finish_upload(&mut host, &mut importer, 1).err().unwrap();
    let corruption = Corruption::Length(9, 10);
    assert_eq!(e, Error::FileCorrupted(path.temp.clone(), corruption));
    assert_eq!(corruption.reason(), "length 9, expect 10");
    assert!(!host.has(&path.temp));
    assert!(!host.has(&path.save));
}

#[test]
fn validating_a_file_leaves_it_open() {
    let mut host = Host::default();
    let (meta, path) = announce(1, b"ab");
    let file = new_file(&mut host, &meta, &path).ok().unwrap();
    let (file, r): (ImportFile<Handle>, Result<(), Failure>) = host.run(file.validate());
    assert_eq!(
        r,
        Err(Error::FileCorrupted(
            path.temp.clone(),
            Corruption::Crc32(0, calc_data_crc32(b"ab"))
        ))
    );
    let (file, r) = append(&mut host, file, b"ab");
    assert_eq!(r, Ok(()));
    let (file, r): (ImportFile<Handle>, Result<(), Failure>) = host.run(file.validate());
    assert_eq!(r, Ok(()));
    assert!(file.is_open());
    assert_eq!(file.meta(), &meta);
    assert!(file.path() == &path);
}

#[test]
fn a_file_that_is_not_as_announced_stays_open() {
    let mut host = Host::default();
    let (meta, path) = announce(1, b"ab");
    let file = new_file(&mut host, &meta, &path).ok().unwrap();
    let (file, r) = append(&mut host, file, b"a");
    assert_eq!(r, Ok(()));
    let (file, r) = finish(&mut host, file);
    assert!(r.is_err());
    assert!(file.is_open());
    // The upload can go on.
    let (file, r) = append(&mut host, file, b"b");
    assert_eq!(r, Ok(()));
    let (file, r) = finish(&mut host, file);
    assert_eq!(r, Ok(()));
    assert!(!file.is_open());
    assert_eq!(host.files[&text(&path.save)], b"ab");
}

#[test]
fn a_file_at_the_final_path_is_not_replaced() {
    let mut host = Host::default();
    let mut importer = open_importer(&mut host);
    let (meta, path) = announce(1, b"x");
    assert_eq!(create_upload(&mut host, &mut importer, 1, &meta), Ok(()));
    assert_eq!(append_upload(&mut host, &mut importer, 1, b"x"), Ok(()));
    host.files.insert(text(&path.save), b"other".to_vec());
    assert_eq!(
        finish_upload(&mut host, &mut importer, 1),
        Err(Error::FileExists(path.save.clone()))
    );
    assert_eq!(host.files[&text(&path.save)], b"other");
    assert!(!host.has(&path.temp));
}

#[test]
fn every_failure_in_finishing_ends_the_upload_without_a_trace() {
    for broken in ["measure", "sync", "rename"] {
        let mut host = Host::default();
        let mut importer = open_importer(&mut host);
        let (meta, path) = announce(1, b"x");
        assert_eq!(create_upload(&mut host, &mut importer, 1, &meta), Ok(()));
        assert_eq!(append_upload(&mut host, &mut importer, 1, b"x"), Ok(()));
        host.broken = Some(broken);
        assert_eq!(
            finish_upload(&mut host, &mut importer, 1),
            Err(Error::Io(format!("{} is broken", broken)))
        );
        assert!(!host.has(&path.temp), "{}", broken);
        assert!(!host.has(&path.save), "{}", broken);
        assert!(!host.is_open(&path.temp), "{}", broken);
        assert!(!importer.contains(1));
    }
}

#[test]
fn a_failure_in_giving_up_a_file_does_not_hide_the_error() {
    let mut host = Host::default();
    let mut importer = open_importer(&mut host);
    let (mut meta, path) = announce(1, b"x");
    meta.length = 2;
    assert_eq!(create_upload(&mut host, &mut importer, 1, &meta), Ok(()));
    assert_eq!(append_upload(&mut host, &mut importer, 1, b"x"), Ok(()));
    host.broken = Some("remove");
    assert_eq!(
        finish_upload(&mut host, &mut importer, 1),
        Err(Error::FileCorrupted(path.temp.clone(), Corruption::Length(1, 2)))
    );
    assert!(host.has(&path.temp));
}

#[test]
fn giving_up_a_file_removes_what_is_at_its_temporary_path() {
    let mut host = Host::default();
    let mut importer = open_importer(&mut host);
    let (meta, path) = announce(1, b"x");
    assert_eq!(create_upload(&mut host, &mut importer, 1, &meta), Ok(()));
    let file = importer.remove(1).unwrap();
    assert!(importer.remove(1).is_none());
    assert!(host.is_open(&path.temp));
    let (file, r): (ImportFile<Handle>, Result<(), Failure>) = host.run(file.cleanup());
    assert_eq!(r, Ok(()));
    assert!(!file.is_open());
    assert!(!host.has(&path.temp));
    assert!(!host.is_open(&path.temp));
    // There is nothing left to give up.
    assert_eq!(cleanup(&mut host, file), Ok(()));

    let file = new_file(&mut host, &meta, &path).ok().unwrap();
    host.broken = Some("remove");
    assert_eq!(
        cleanup(&mut host, file),
        Err(Error::Io("remove is broken".to_string()))
    );
}

#[test]
fn the_uploads_under_way_are_known_by_their_tokens() {
    let mut host = Host::default();
    let mut importer = open_importer(&mut host);
    assert!(importer.tokens().is_empty());
    for id in [1, 2, 3] {
        let (meta, _) = announce(id, b"x");
        let token = importer.token();
        assert_eq!(create_upload(&mut host, &mut importer, token, &meta), Ok(()));
    }
    let mut tokens = importer.tokens();
    tokens.sort();
    assert_eq!(tokens, [1, 2, 3]);
    importer.remove(2);
    let mut tokens = importer.tokens();
    tokens.sort();
    assert_eq!(tokens, [1, 3]);
}

#[test]
fn uploads_do_not_disturb_each_other() {
    let mut host = Host::default();
    let mut importer = open_importer(&mut host);
    let (first, first_path) = announce(1, b"first");
    let (second, second_path) = announce(2, b"second");
    let (third, third_path) = announce(3, b"third");
    for (token, meta) in [(1, &first), (2, &second), (3, &third)] {
        assert_eq!(create_upload(&mut host, &mut importer, token, meta), Ok(()));
    }
    for (token, data) in [(1, &b"fi"[..]), (2, b"se"), (1, b"rst"), (3, b"thx"), (2, b"cond")] {
        assert_eq!(append_upload(&mut host, &mut importer, token, data), Ok(()));
    }
    assert_eq!(finish_upload(&mut host, &mut importer, 1), Ok(()));
    assert!(finish_upload(&mut host, &mut importer, 3).is_err());
    assert_eq!(finish_upload(&mut host, &mut importer, 2), Ok(()));
    assert_eq!(host.files[&text(&first_path.save)], b"first");
    assert_eq!(host.files[&text(&second_path.save)], b"second");
    assert!(!host.has(&third_path.save));
    assert_eq!(host.files.len(), 2);
}

#[test]
fn deleting_a_file_removes_it_in_all_of_its_stages() {
    let mut host = Host::default();
    let importer = open_importer(&mut host);
    let (meta, path) = announce(1, b"x");
    let (_, other) = announce(2, b"x");
    let (save, temp, clone) = (text(&path.save), text(&path.temp), text(&path.clone));

    let r: Result<(), Failure> = host.run(importer.delete(&meta));
    assert_eq!(r, Ok(()));
    assert_eq!(
        host.actions(),
        [format!("exists {}", save), format!("exists {}", temp), format!("exists {}", clone)]
    );

    for p in [&path.save, &path.temp, &path.clone, &other.save, &other.temp, &other.clone] {
        host.files.insert(text(p), Vec::new());
    }
    let r: Result<(), Failure> = host.run(importer.delete(&meta));
    assert_eq!(r, Ok(()));
    assert_eq!(
        host.actions(),
        [
            format!("exists {}", save),
            format!("remove {}", save),
            format!("exists {}", temp),
            format!("remove {}", temp),
            format!("exists {}", clone),
            format!("remove {}", clone),
        ]
    );
    assert_eq!(host.files.len(), 3);

    host.files.insert(temp.clone(), Vec::new());
    host.files.insert(clone.clone(), Vec::new());
    host.broken = Some("remove");
    let r: Result<(), Failure> = host.run(importer.delete(&meta));
    assert_eq!(r, Err(Error::Io("remove is broken".to_string())));
    assert_eq!(
        host.actions(),
        [format!("exists {}", save), format!("exists {}", temp), format!("remove {}", temp)]
    );
}

#[test]
fn deleting_a_file_undoes_its_upload() {
    let mut host = Host::default();
    let mut importer = open_importer(&mut host);
    host.files.insert("/import/other".to_string(), b"other".to_vec());
    let (files, dirs) = (host.files.clone(), host.dirs.clone());
    let (meta, _) = announce(1, b"x");
    assert_eq!(create_upload(&mut host, &mut importer, 1, &meta), Ok(()));
    assert_eq!(append_upload(&mut host, &mut importer, 1, b"x"), Ok(()));
    assert_eq!(finish_upload(&mut host, &mut importer, 1), Ok(()));
    assert_ne!(host.files, files);
    let r: Result<(), Failure> = host.run(importer.delete(&meta));
    assert_eq!(r, Ok(()));
    assert_eq!(host.files, files);
    assert_eq!(host.dirs, dirs);
}

#[test]
fn ingesting_moves_a_checked_copy_into_the_engine() {
    let mut host = Host::default();
    host.column_families.insert("default".to_string(), BTreeSet::new());
    let importer = open_importer(&mut host);
    let (meta, path) = announce(1, &[5, 6, 7]);
    host.files.insert(text(&path.save), vec![5, 6, 7]);
    let r: Result<(), Failure> = host.run(importer.ingest(&meta));
    assert_eq!(r, Ok(()));
    let (save, clone) = (text(&path.save), text(&path.clone));
    assert_eq!(
        host.actions(),
        [
            format!("prepare {} {}", save, clone),
            format!("validate default {} 3 {}", clone, meta.crc32),
            "find default".to_string(),
            format!("ingest default {} true", clone),
        ]
    );
    assert_eq!(host.column_families["default"], BTreeSet::from([5, 6, 7]));
    assert!(host.has(&path.save));
    assert!(!host.has(&path.clone));
}

#[test]
fn ingesting_ends_with_the_first_failure() {
    for (broken, actions) in [("prepare", 1), ("validate", 2), ("find", 3), ("ingest", 4)] {
        let mut host = Host::default();
        host.column_families.insert("default".to_string(), BTreeSet::new());
        let importer = open_importer(&mut host);
        let (meta, path) = announce(1, b"x");
        host.files.insert(text(&path.save), b"x".to_vec());
        host.broken = Some(broken);
        let r: Result<(), Failure> = host.run(importer.ingest(&meta));
        assert_eq!(r, Err(Error::Io(format!("{} is broken", broken))));
        assert_eq!(host.actions().len(), actions);
        assert!(host.column_families["default"].is_empty());
    }
}

#[test]
fn uploaded_files_are_listed_by_their_names() {
    let mut host = Host::default();
    let mut importer = open_importer(&mut host);
    let list = |host: &mut Host, importer: &SSTImporter<Handle>| {
        let r: Result<Vec<SSTMeta>, Failure> = host.run(importer.list_ssts());
        r
    };
    assert_eq!(list(&mut host, &importer), Ok(vec![]));

    let (done, _) = announce(1, b"x");
    let (under_way, _) = announce(2, b"y");
    assert_eq!(create_upload(&mut host, &mut importer, 1, &done), Ok(()));
    assert_eq!(create_upload(&mut host, &mut importer, 2, &under_way), Ok(()));
    assert_eq!(append_upload(&mut host, &mut importer, 1, b"x"), Ok(()));
    assert_eq!(finish_upload(&mut host, &mut importer, 1), Ok(()));
    // Neither a directory nor a file with another name counts.
    let (as_dir, as_dir_path) = announce(3, b"z");
    host.dirs.insert(text(&as_dir_path.save));
    host.files.insert("/import/0.sst".to_string(), vec![]);
    host.files.insert("/import/notes".to_string(), vec![]);

    let mut identity = SSTMeta::new();
    identity.uuid = done.uuid.clone();
    identity.region_id = done.region_id;
    assert_eq!(list(&mut host, &importer), Ok(vec![identity]));
    assert_ne!(done.uuid, as_dir.uuid);

    let r: Result<(), Failure> = host.run(importer.delete(&done));
    assert_eq!(r, Ok(()));
    assert_eq!(list(&mut host, &importer), Ok(vec![]));

    host.actions();
    host.broken = Some("list");
    assert_eq!(list(&mut host, &importer), Err(Error::Io("list is broken".to_string())));
    assert_eq!(host.actions(), ["list /import"]);
}

#[test]
fn a_listing_ends_with_the_first_entry_that_cannot_be_read() {
    let (meta, path) = announce(1, b"");
    let (other, other_path) = announce(2, b"");
    let entry = |p: &ImportPath, r: Result<bool, String>| DirEntry::Entry(p.save.clone(), r);
    let good = || vec![entry(&path, Ok(true)), entry(&other_path, Ok(true))];
    let listed = |entries: Vec<DirEntry<String>>| {
        list_entries(entries).map(|ssts| ssts.iter().map(|s| s.uuid.clone()).collect::<Vec<_>>())
    };
    assert_eq!(listed(good()), Ok(vec![meta.uuid.clone(), other.uuid.clone()]));
    assert_eq!(
        listed(vec![entry(&other_path, Ok(true)), entry(&path, Ok(false))]),
        Ok(vec![other.uuid.clone()])
    );

    let mut entries = good();
    entries.insert(1, DirEntry::Unreadable("first".to_string()));
    entries.push(entry(&path, Err("second".to_string())));
    assert_eq!(listed(entries), Err(Error::Io("first".to_string())));

    let mut entries = good();
    entries.push(entry(&path, Err("type".to_string())));
    entries.push(DirEntry::Unreadable("later".to_string()));
    assert_eq!(listed(entries), Err(Error::Io("type".to_string())));
}

#[test]
fn imported_files_are_listed_once_each_whether_ingested_or_not() {
    let mut host = Host::default();
    host.column_families.insert("default".to_string(), BTreeSet::new());
    let mut importer = open_importer(&mut host);
    host.files.insert("/import/0.sst".to_string(), vec![0]);
    host.dirs.insert("/import/db".to_string());
    let mut expected = Vec::new();
    for id in 1..=4u8 {
        let data = [id, id + 1];
        let (meta, path) = announce(id, &data);
        let token = importer.token();
        assert_eq!(create_upload(&mut host, &mut importer, token, &meta), Ok(()));
        assert_eq!(append_upload(&mut host, &mut importer, token, &data[..1]), Ok(()));
        assert_eq!(append_upload(&mut host, &mut importer, token, &data[1..]), Ok(()));
        assert_eq!(finish_upload(&mut host, &mut importer, token), Ok(()));
        if id % 2 == 0 {
            let r: Result<(), Failure> = host.run(importer.ingest(&meta));
            assert_eq!(r, Ok(()));
        }
        assert_eq!(host.files[&text(&path.save)], data);
        expected.push(meta.uuid);
    }
    assert_eq!(host.column_families["default"], BTreeSet::from([2, 3, 4, 5]));
    let r: Result<Vec<SSTMeta>, Failure> = host.run(importer.list_ssts());
    let mut listed: Vec<Vec<u8>> = r.unwrap().into_iter().map(|sst| sst.uuid).collect();
    listed.sort();
    assert_eq!(listed, expected);
}

#[test]
fn ingesting_never_touches_the_saved_file() {
    for broken in [None, Some("prepare"), Some("validate"), Some("find"), Some("ingest")] {
        let mut host = Host::default();
        host.column_families.insert("default".to_string(), BTreeSet::new());
        let importer = open_importer(&mut host);
        let (meta, path) = announce(1, b"x");
        host.files.insert(text(&path.save), b"x".to_vec());
        host.broken = broken;
        let r: Result<(), Failure> = host.run(importer.ingest(&meta));
        assert_eq!(r.is_ok(), broken.is_none());
        assert_eq!(host.files[&text(&path.save)], b"x");
        let actions = host.actions();
        assert!(actions[0].starts_with(&format!("prepare {} ", text(&path.save))));
        assert!(actions[1..].iter().all(|a| !a.contains(&text(&path.save))));
    }
}
