use grpsqlite::batch::CommitOp;
use grpsqlite::error::VfsError;
use grpsqlite::handle::GrpcVfsHandle;
use grpsqlite::lock_manager::{LockLevel, LockOutcome};
use grpsqlite::probe::{AccessOp, OpenOp, SyncOp};
use grpsqlite::read::ReadOp;
use grpsqlite::size::SizeOp;
use grpsqlite::store::{Step, StoreReply, StoreRequest};
use grpsqlite::trim::TrimOp;
use grpsqlite::vfs::{
    Capabilities, GrpcVfs, FCNTL_BEGIN_ATOMIC_WRITE, FCNTL_COMMIT_ATOMIC_WRITE,
    FCNTL_ROLLBACK_ATOMIC_WRITE,
};
use grpsqlite::write::WriteOp;
use std::collections::HashMap;

/// A store in memory that serves requests and keeps count of them. It can
/// be told to fail the request with a given number.
struct MemStore {
    map: HashMap<String, Vec<u8>>,
    served: usize,
    changes: usize,
    fail_at: Option<usize>,
}

impl MemStore {
    fn new() -> Self {
        MemStore { map: HashMap::new(), served: 0, changes: 0, fail_at: None }
    }

    fn serve(&mut self, request: StoreRequest) -> StoreReply {
        let number = self.served;
        self.served += 1;
        if self.fail_at == Some(number) {
            return StoreReply::Failed;
        }
        match request {
            StoreRequest::Get { key } => StoreReply::Value(self.map.get(&key).cloned()),
            StoreRequest::Put { key, value } => {
                self.changes += 1;
                self.map.insert(key, value);
                StoreReply::Done
            }
            StoreRequest::Delete { key } => {
                self.changes += 1;
                self.map.remove(&key);
                StoreReply::Done
            }
            StoreRequest::WriteBatch { puts } => {
                self.changes += 1;
                for put in puts {
                    self.map.insert(put.key, put.value);
                }
                StoreReply::Done
            }
            StoreRequest::Flush => StoreReply::Done,
        }
    }

    fn fail_request(&mut self, number_from_now: usize) {
        self.fail_at = Some(self.served + number_from_now);
    }

    fn has(&self, key: &str) -> bool {
        self.map.contains_key(key)
    }

    fn dense(&self, path: &str) -> bool {
        let mut gap = false;
        for k in 0..64usize {
            let present = self.has(&format!("{}:page:{}", path, k * 4096));
            if present && gap {
                return false;
            }
            if !present {
                gap = true;
            }
        }
        true
    }
}

fn run<Op, T>(
    store: &mut MemStore,
    first: Step<Op, T>,
    resume: fn(Op, StoreReply) -> Step<Op, T>,
) -> Result<T, VfsError> {
    let mut step = first;
    loop {
        match step {
            Step::Done(result) => return result,
            Step::Ask(request, op) => {
                let reply = store.serve(request);
                step = resume(op, reply);
            }
        }
    }
}

fn open(vfs: &mut GrpcVfs, store: &mut MemStore, path: &str) -> GrpcVfsHandle {
    let step = vfs.open(Some(path), false);
    match run(store, step, OpenOp::resume) {
        Ok(handle) => handle,
        Err(e) => panic!("open failed: {:?}", e),
    }
}

fn write(
    vfs: &mut GrpcVfs,
    store: &mut MemStore,
    handle: &GrpcVfsHandle,
    offset: usize,
    data: &[u8],
) -> Result<usize, VfsError> {
    let step = vfs.write(handle, offset, data);
    run(store, step, WriteOp::resume)
}

fn read(
    vfs: &GrpcVfs,
    store: &mut MemStore,
    handle: &GrpcVfsHandle,
    offset: usize,
    len: usize,
) -> Result<Vec<u8>, VfsError> {
    run(store, vfs.read(handle, offset, len), ReadOp::resume)
}

fn file_size(vfs: &GrpcVfs, store: &mut MemStore, handle: &GrpcVfsHandle) -> Result<usize, VfsError> {
    run(store, vfs.file_size(handle), SizeOp::resume)
}

fn truncate(
    vfs: &GrpcVfs,
    store: &mut MemStore,
    handle: &GrpcVfsHandle,
    size: usize,
) -> Result<(), VfsError> {
    run(store, vfs.truncate(handle, size), TrimOp::resume)
}

fn delete(vfs: &GrpcVfs, store: &mut MemStore, path: &str) -> Result<(), VfsError> {
    run(store, vfs.delete(path), TrimOp::resume)
}

fn access(vfs: &GrpcVfs, store: &mut MemStore, path: &str) -> Result<bool, VfsError> {
    run(store, vfs.access(path), AccessOp::resume)
}

fn control(
    vfs: &mut GrpcVfs,
    store: &mut MemStore,
    handle: &GrpcVfsHandle,
    op: i32,
) -> Result<(), VfsError> {
    let step = vfs.file_control(handle, op);
    run(store, step, CommitOp::resume)
}

#[test]
fn test_custom_vfs_pragma() {
    let mut vfs = GrpcVfs::new();
    let mut store = MemStore::new();
    let handle = open(&mut vfs, &mut store, "test_custom_vfs_pragma.db");
    match vfs.pragma(&handle, "is_memory_server") {
        Some(result) => {
            println!("result: {result}");
            assert_eq!(result, "maybe?");
        }
        None => panic!("grpsqlite VFS not detected"),
    }
}

#[test]
fn pragma_declines_other_names() {
    let mut vfs = GrpcVfs::new();
    let mut store = MemStore::new();
    let handle = open(&mut vfs, &mut store, "a.db");
    assert_eq!(vfs.pragma(&handle, "journal_mode"), None);
    assert_eq!(vfs.pragma(&handle, ""), None);
    assert_eq!(vfs.pragma(&handle, "is_memory_server "), None);
}

#[test]
fn open_sets_the_marker() {
    let mut vfs = GrpcVfs::new();
    let mut store = MemStore::new();
    let handle = open(&mut vfs, &mut store, "a.db");
    assert_eq!(handle.path, "a.db");
    assert!(!handle.readonly());
    assert!(!handle.in_memory());
    assert_eq!(store.map.get("a.db"), Some(&Vec::new()));
    assert_eq!(access(&vfs, &mut store, "a.db"), Ok(true));
    assert_eq!(access(&vfs, &mut store, "b.db"), Ok(false));
}

#[test]
fn open_twice_keeps_the_file() {
    let mut vfs = GrpcVfs::new();
    let mut store = MemStore::new();
    let first = open(&mut vfs, &mut store, "a.db");
    assert_eq!(write(&mut vfs, &mut store, &first, 0, b"hello"), Ok(5));
    let second = open(&mut vfs, &mut store, "a.db");
    assert_eq!(read(&vfs, &mut store, &second, 0, 5), Ok(b"hello".to_vec()));
}

#[test]
fn open_without_a_path_asks_nothing() {
    let mut vfs = GrpcVfs::new();
    let mut store = MemStore::new();
    let step = vfs.open(None, false);
    let handle = run(&mut store, step, OpenOp::resume).unwrap();
    assert_eq!(handle.path, "");
    assert_eq!(store.served, 0);
    let step = vfs.open(Some(""), false);
    let handle = run(&mut store, step, OpenOp::resume).unwrap();
    assert_eq!(handle.path, "");
    assert_eq!(store.served, 0);
}

#[test]
fn open_readonly_needs_the_capability() {
    let mut vfs = GrpcVfs::new();
    let mut store = MemStore::new();
    let step = vfs.open(Some("a.db"), true);
    assert_eq!(run(&mut store, step, OpenOp::resume).err(), Some(VfsError::CantOpen));
    assert_eq!(store.served, 0);
    assert!(!store.has("a.db"));

    let mut vfs = GrpcVfs::with_capabilities(Capabilities {
        atomic_batch: false,
        point_in_time_reads: true,
        sector_size: 512,
    });
    let step = vfs.open(Some("a.db"), true);
    let handle = run(&mut store, step, OpenOp::resume).unwrap();
    assert!(handle.readonly());
    assert!(store.has("a.db"));
    assert_eq!(vfs.sector_size(), 512);
    assert_eq!(vfs.device_characteristics(), 0x1601);
}

#[test]
fn open_fails_when_the_store_fails() {
    let mut vfs = GrpcVfs::new();
    let mut store = MemStore::new();
    store.fail_request(0);
    let step = vfs.open(Some("a.db"), false);
    assert_eq!(run(&mut store, step, OpenOp::resume).err(), Some(VfsError::CantOpen));
}

#[test]
fn handles_get_different_identities() {
    let mut vfs = GrpcVfs::new();
    let mut store = MemStore::new();
    let a = open(&mut vfs, &mut store, "a.db");
    let b = open(&mut vfs, &mut store, "a.db");
    let c = open(&mut vfs, &mut store, "c.db");
    assert_eq!(a.handle_id, 1);
    assert_eq!(b.handle_id, 2);
    assert_eq!(c.handle_id, 3);
}

#[test]
fn write_then_size_then_truncate_to_nothing() {
    let mut vfs = GrpcVfs::new();
    let mut store = MemStore::new();
    let handle = open(&mut vfs, &mut store, "a.db");
    assert_eq!(write(&mut vfs, &mut store, &handle, 0, &[7u8; 10]), Ok(10));
    assert_eq!(file_size(&vfs, &mut store, &handle), Ok(10));
    assert_eq!(truncate(&vfs, &mut store, &handle, 0), Ok(()));
    assert_eq!(access(&vfs, &mut store, "a.db"), Ok(false));
    assert!(store.map.is_empty());
}

#[test]
fn size_of_a_page_and_ten_bytes() {
    let mut vfs = GrpcVfs::new();
    let mut store = MemStore::new();
    let handle = open(&mut vfs, &mut store, "a.db");
    assert_eq!(write(&mut vfs, &mut store, &handle, 0, &[1u8; 4096]), Ok(4096));
    assert_eq!(write(&mut vfs, &mut store, &handle, 4096, &[2u8; 10]), Ok(10));
    assert_eq!(file_size(&vfs, &mut store, &handle), Ok(4106));
    assert_eq!(store.map.get("a.db:page:0").map(|p| p.len()), Some(4096));
    assert_eq!(store.map.get("a.db:page:4096").map(|p| p.len()), Some(10));
}

#[test]
fn size_of_an_empty_file_is_zero() {
    let mut vfs = GrpcVfs::new();
    let mut store = MemStore::new();
    let handle = open(&mut vfs, &mut store, "a.db");
    assert_eq!(file_size(&vfs, &mut store, &handle), Ok(0));
}

#[test]
fn size_stops_at_the_first_gap() {
    let mut vfs = GrpcVfs::new();
    let mut store = MemStore::new();
    let handle = open(&mut vfs, &mut store, "a.db");
    store.map.insert("a.db:page:0".to_string(), vec![0u8; 100]);
    store.map.insert("a.db:page:8192".to_string(), vec![0u8; 100]);
    assert_eq!(file_size(&vfs, &mut store, &handle), Ok(100));
}

#[test]
fn write_then_read_gives_the_bytes_back() {
    let mut vfs = GrpcVfs::new();
    let mut store = MemStore::new();
    let handle = open(&mut vfs, &mut store, "a.db");
    let data: Vec<u8> = (0..200u32).map(|i| (i % 251) as u8).collect();
    assert_eq!(write(&mut vfs, &mut store, &handle, 5000, &data), Ok(200));
    assert_eq!(read(&vfs, &mut store, &handle, 5000, 200), Ok(data.clone()));
    let page = store.map.get("a.db:page:4096").unwrap();
    assert_eq!(page.len(), 904 + 200);
    assert!(page[..904].iter().all(|b| *b == 0));
    assert_eq!(&page[904..], &data[..]);
}

#[test]
fn write_inside_a_page_keeps_the_rest() {
    let mut vfs = GrpcVfs::new();
    let mut store = MemStore::new();
    let handle = open(&mut vfs, &mut store, "a.db");
    assert_eq!(write(&mut vfs, &mut store, &handle, 0, b"0123456789"), Ok(10));
    assert_eq!(write(&mut vfs, &mut store, &handle, 3, b"abc"), Ok(3));
    assert_eq!(read(&vfs, &mut store, &handle, 0, 10), Ok(b"012abc6789".to_vec()));
}

#[test]
fn read_past_the_end_gets_no_bytes() {
    let mut vfs = GrpcVfs::new();
    let mut store = MemStore::new();
    let handle = open(&mut vfs, &mut store, "a.db");
    assert_eq!(read(&vfs, &mut store, &handle, 0, 16), Ok(vec![]));
    assert_eq!(write(&mut vfs, &mut store, &handle, 0, b"0123456789"), Ok(10));
    assert_eq!(read(&vfs, &mut store, &handle, 10, 16), Ok(vec![]));
    assert_eq!(read(&vfs, &mut store, &handle, 11, 16), Ok(vec![]));
    assert_eq!(read(&vfs, &mut store, &handle, 4096, 16), Ok(vec![]));
}

#[test]
fn read_is_cut_at_the_end_of_the_page() {
    let mut vfs = GrpcVfs::new();
    let mut store = MemStore::new();
    let handle = open(&mut vfs, &mut store, "a.db");
    assert_eq!(write(&mut vfs, &mut store, &handle, 0, b"0123456789"), Ok(10));
    assert_eq!(read(&vfs, &mut store, &handle, 6, 100), Ok(b"6789".to_vec()));
    assert_eq!(read(&vfs, &mut store, &handle, 6, 2), Ok(b"67".to_vec()));
    assert_eq!(read(&vfs, &mut store, &handle, 6, 0), Ok(vec![]));
}

#[test]
fn read_does_not_cross_into_the_next_page() {
    let mut vfs = GrpcVfs::new();
    let mut store = MemStore::new();
    let handle = open(&mut vfs, &mut store, "a.db");
    assert_eq!(write(&mut vfs, &mut store, &handle, 0, &[1u8; 4096]), Ok(4096));
    assert_eq!(write(&mut vfs, &mut store, &handle, 4096, &[2u8; 4096]), Ok(4096));
    assert_eq!(read(&vfs, &mut store, &handle, 4090, 100), Ok(vec![1u8; 6]));
}

#[test]
fn truncate_cuts_the_page_and_drops_the_rest() {
    let mut vfs = GrpcVfs::new();
    let mut store = MemStore::new();
    let handle = open(&mut vfs, &mut store, "a.db");
    for k in 0..4usize {
        assert_eq!(write(&mut vfs, &mut store, &handle, k * 4096, &[k as u8; 4096]), Ok(4096));
    }
    assert_eq!(file_size(&vfs, &mut store, &handle), Ok(16384));
    assert_eq!(truncate(&vfs, &mut store, &handle, 5000), Ok(()));
    assert_eq!(file_size(&vfs, &mut store, &handle), Ok(5000));
    assert_eq!(store.map.get("a.db:page:0").map(|p| p.len()), Some(4096));
    assert_eq!(store.map.get("a.db:page:4096"), Some(&vec![1u8; 904]));
    assert!(!store.has("a.db:page:8192"));
    assert!(!store.has("a.db:page:12288"));
    assert!(store.has("a.db"));
    assert!(store.dense("a.db"));
}

#[test]
fn truncate_never_makes_a_file_longer() {
    let mut vfs = GrpcVfs::new();
    let mut store = MemStore::new();
    let handle = open(&mut vfs, &mut store, "a.db");
    assert_eq!(write(&mut vfs, &mut store, &handle, 0, &[9u8; 100]), Ok(100));
    let before = store.changes;
    assert_eq!(truncate(&vfs, &mut store, &handle, 200), Ok(()));
    assert_eq!(truncate(&vfs, &mut store, &handle, 100), Ok(()));
    assert_eq!(truncate(&vfs, &mut store, &handle, 9000), Ok(()));
    assert_eq!(store.changes, before);
    assert_eq!(file_size(&vfs, &mut store, &handle), Ok(100));
}

#[test]
fn truncate_at_a_page_boundary_leaves_an_empty_page() {
    let mut vfs = GrpcVfs::new();
    let mut store = MemStore::new();
    let handle = open(&mut vfs, &mut store, "a.db");
    for k in 0..3usize {
        assert_eq!(write(&mut vfs, &mut store, &handle, k * 4096, &[1u8; 4096]), Ok(4096));
    }
    assert_eq!(truncate(&vfs, &mut store, &handle, 4096), Ok(()));
    assert_eq!(store.map.get("a.db:page:4096"), Some(&Vec::new()));
    assert!(!store.has("a.db:page:8192"));
    assert_eq!(file_size(&vfs, &mut store, &handle), Ok(4096));
}

#[test]
fn delete_removes_pages_and_marker() {
    let mut vfs = GrpcVfs::new();
    let mut store = MemStore::new();
    let handle = open(&mut vfs, &mut store, "a.db");
    let other = open(&mut vfs, &mut store, "b.db");
    for k in 0..3usize {
        assert_eq!(write(&mut vfs, &mut store, &handle, k * 4096, &[1u8; 4096]), Ok(4096));
    }
    assert_eq!(write(&mut vfs, &mut store, &other, 0, b"stay"), Ok(4));
    assert_eq!(delete(&vfs, &mut store, "a.db"), Ok(()));
    assert_eq!(access(&vfs, &mut store, "a.db"), Ok(false));
    assert_eq!(store.map.len(), 2);
    assert_eq!(read(&vfs, &mut store, &other, 0, 4), Ok(b"stay".to_vec()));
    assert_eq!(delete(&vfs, &mut store, "a.db"), Ok(()));
}

#[test]
fn delete_that_fails_midway_is_not_undone() {
    let mut vfs = GrpcVfs::new();
    let mut store = MemStore::new();
    let handle = open(&mut vfs, &mut store, "a.db");
    for k in 0..3usize {
        assert_eq!(write(&mut vfs, &mut store, &handle, k * 4096, &[1u8; 4096]), Ok(4096));
    }
    store.fail_request(3);
    assert_eq!(delete(&vfs, &mut store, "a.db"), Err(VfsError::IoDelete));
    assert!(!store.has("a.db:page:0"));
    assert!(store.has("a.db:page:4096"));
    assert!(store.has("a.db:page:8192"));
    assert!(store.has("a.db"));
}

#[test]
fn density_holds_after_writes_truncates_and_deletes() {
    let mut vfs = GrpcVfs::new();
    let mut store = MemStore::new();
    let handle = open(&mut vfs, &mut store, "a.db");
    for k in 0..6usize {
        assert_eq!(write(&mut vfs, &mut store, &handle, k * 4096 + 17, &[1u8; 100]), Ok(100));
        assert!(store.dense("a.db"));
    }
    assert_eq!(truncate(&vfs, &mut store, &handle, 3 * 4096 + 5), Ok(()));
    assert!(store.dense("a.db"));
    assert!(store.has("a.db:page:12288"));
    assert!(!store.has("a.db:page:16384"));
    assert_eq!(write(&mut vfs, &mut store, &handle, 4 * 4096, &[1u8; 1]), Ok(1));
    assert!(store.dense("a.db"));
    assert_eq!(delete(&vfs, &mut store, "a.db"), Ok(()));
    assert!(store.dense("a.db"));
    assert!(store.map.is_empty());
}

#[test]
fn a_write_beyond_the_end_leaves_a_gap() {
    let mut vfs = GrpcVfs::new();
    let mut store = MemStore::new();
    let handle = open(&mut vfs, &mut store, "a.db");
    assert_eq!(write(&mut vfs, &mut store, &handle, 8192, b"x"), Ok(1));
    assert!(!store.dense("a.db"));
    assert_eq!(file_size(&vfs, &mut store, &handle), Ok(0));
}

#[test]
fn batch_buffers_until_commit() {
    let mut vfs = GrpcVfs::new();
    let mut store = MemStore::new();
    let handle = open(&mut vfs, &mut store, "a.db");
    assert_eq!(write(&mut vfs, &mut store, &handle, 0, b"before"), Ok(6));
    assert_eq!(control(&mut vfs, &mut store, &handle, FCNTL_BEGIN_ATOMIC_WRITE), Ok(()));
    let served = store.served;
    assert_eq!(write(&mut vfs, &mut store, &handle, 0, b"AFTER!"), Ok(6));
    assert_eq!(write(&mut vfs, &mut store, &handle, 4096, &[5u8; 4096]), Ok(4096));
    assert_eq!(write(&mut vfs, &mut store, &handle, 8192, &[6u8; 10]), Ok(10));
    assert_eq!(store.served, served);
    assert_eq!(read(&vfs, &mut store, &handle, 0, 6), Ok(b"before".to_vec()));
    assert_eq!(file_size(&vfs, &mut store, &handle), Ok(6));

    let changes = store.changes;
    assert_eq!(control(&mut vfs, &mut store, &handle, FCNTL_COMMIT_ATOMIC_WRITE), Ok(()));
    assert_eq!(store.changes, changes + 1);
    assert_eq!(read(&vfs, &mut store, &handle, 0, 6), Ok(b"AFTER!".to_vec()));
    assert_eq!(file_size(&vfs, &mut store, &handle), Ok(8202));
    assert!(store.dense("a.db"));

    assert_eq!(write(&mut vfs, &mut store, &handle, 0, b"direct"), Ok(6));
    assert_eq!(read(&vfs, &mut store, &handle, 0, 6), Ok(b"direct".to_vec()));
}

#[test]
fn commit_fetches_each_page_once_and_writes_once() {
    let mut vfs = GrpcVfs::new();
    let mut store = MemStore::new();
    let handle = open(&mut vfs, &mut store, "a.db");
    assert_eq!(control(&mut vfs, &mut store, &handle, FCNTL_BEGIN_ATOMIC_WRITE), Ok(()));
    for i in 0..10usize {
        assert_eq!(write(&mut vfs, &mut store, &handle, (i % 2) * 4096 + i, &[i as u8]), Ok(1));
    }
    let mut step = vfs.file_control(&handle, FCNTL_COMMIT_ATOMIC_WRITE);
    let mut gets = Vec::new();
    let mut batches = 0;
    loop {
        match step {
            Step::Done(result) => {
                assert_eq!(result, Ok(()));
                break;
            }
            Step::Ask(request, op) => {
                match &request {
                    StoreRequest::Get { key } => {
                        assert_eq!(batches, 0);
                        gets.push(key.clone());
                    }
                    StoreRequest::WriteBatch { puts } => {
                        batches += 1;
                        let keys: Vec<&str> = puts.iter().map(|p| p.key.as_str()).collect();
                        assert_eq!(keys, vec!["a.db:page:0", "a.db:page:4096"]);
                    }
                    _ => panic!("a commit asks for lookups and one batch only"),
                }
                let reply = store.serve(request);
                step = op.resume(reply);
            }
        }
    }
    assert_eq!(gets, vec!["a.db:page:0".to_string(), "a.db:page:4096".to_string()]);
    assert_eq!(batches, 1);
    assert_eq!(read(&vfs, &mut store, &handle, 0, 9), Ok(vec![0, 0, 2, 0, 4, 0, 6, 0, 8]));
    assert_eq!(read(&vfs, &mut store, &handle, 4096, 10), Ok(vec![0, 1, 0, 3, 0, 5, 0, 7, 0, 9]));
}

#[test]
fn commit_of_an_empty_batch_asks_nothing() {
    let mut vfs = GrpcVfs::new();
    let mut store = MemStore::new();
    let handle = open(&mut vfs, &mut store, "a.db");
    assert_eq!(control(&mut vfs, &mut store, &handle, FCNTL_BEGIN_ATOMIC_WRITE), Ok(()));
    let served = store.served;
    assert_eq!(control(&mut vfs, &mut store, &handle, FCNTL_COMMIT_ATOMIC_WRITE), Ok(()));
    assert_eq!(store.served, served);
    assert_eq!(control(&mut vfs, &mut store, &handle, FCNTL_COMMIT_ATOMIC_WRITE), Ok(()));
    assert_eq!(store.served, served);
}

#[test]
fn rollback_drops_the_writes() {
    let mut vfs = GrpcVfs::new();
    let mut store = MemStore::new();
    let handle = open(&mut vfs, &mut store, "a.db");
    assert_eq!(write(&mut vfs, &mut store, &handle, 0, b"before"), Ok(6));
    let snapshot = store.map.clone();
    assert_eq!(control(&mut vfs, &mut store, &handle, FCNTL_BEGIN_ATOMIC_WRITE), Ok(()));
    assert_eq!(write(&mut vfs, &mut store, &handle, 0, b"AFTER!"), Ok(6));
    assert_eq!(write(&mut vfs, &mut store, &handle, 4096, b"more"), Ok(4));
    let served = store.served;
    assert_eq!(control(&mut vfs, &mut store, &handle, FCNTL_ROLLBACK_ATOMIC_WRITE), Ok(()));
    assert_eq!(store.served, served);
    assert_eq!(store.map, snapshot);
    assert_eq!(control(&mut vfs, &mut store, &handle, FCNTL_COMMIT_ATOMIC_WRITE), Ok(()));
    assert_eq!(store.map, snapshot);
    assert_eq!(write(&mut vfs, &mut store, &handle, 0, b"direct"), Ok(6));
    assert_eq!(read(&vfs, &mut store, &handle, 0, 6), Ok(b"direct".to_vec()));
}

#[test]
fn the_later_write_wins_where_two_overlap() {
    let mut vfs = GrpcVfs::new();
    let mut store = MemStore::new();
    let handle = open(&mut vfs, &mut store, "a.db");
    assert_eq!(control(&mut vfs, &mut store, &handle, FCNTL_BEGIN_ATOMIC_WRITE), Ok(()));
    assert_eq!(write(&mut vfs, &mut store, &handle, 0, b"aaaaaaaa"), Ok(8));
    assert_eq!(write(&mut vfs, &mut store, &handle, 4, b"bbbbbbbb"), Ok(8));
    assert_eq!(write(&mut vfs, &mut store, &handle, 2, b"cc"), Ok(2));
    assert_eq!(control(&mut vfs, &mut store, &handle, FCNTL_COMMIT_ATOMIC_WRITE), Ok(()));
    assert_eq!(read(&vfs, &mut store, &handle, 0, 12), Ok(b"aaccbbbbbbbb".to_vec()));
}

#[test]
fn commit_gives_what_the_writes_give_one_by_one() {
    let writes: Vec<(usize, Vec<u8>)> = vec![
        (10, vec![1; 20]),
        (4096 + 7, vec![2; 3]),
        (25, vec![3; 10]),
        (8192, vec![4; 4096]),
        (4096, vec![5; 8]),
        (0, vec![6; 1]),
    ];
    let mut vfs = GrpcVfs::new();
    let mut batched = MemStore::new();
    let handle = open(&mut vfs, &mut batched, "a.db");
    assert_eq!(control(&mut vfs, &mut batched, &handle, FCNTL_BEGIN_ATOMIC_WRITE), Ok(()));
    for (offset, data) in &writes {
        assert_eq!(write(&mut vfs, &mut batched, &handle, *offset, data), Ok(data.len()));
    }
    assert_eq!(control(&mut vfs, &mut batched, &handle, FCNTL_COMMIT_ATOMIC_WRITE), Ok(()));

    let mut vfs = GrpcVfs::new();
    let mut direct = MemStore::new();
    let handle = open(&mut vfs, &mut direct, "a.db");
    for (offset, data) in &writes {
        assert_eq!(write(&mut vfs, &mut direct, &handle, *offset, data), Ok(data.len()));
    }
    assert_eq!(batched.map, direct.map);
}

#[test]
fn commit_that_fails_writes_nothing() {
    let mut vfs = GrpcVfs::new();
    let mut store = MemStore::new();
    let handle = open(&mut vfs, &mut store, "a.db");
    assert_eq!(write(&mut vfs, &mut store, &handle, 0, b"before"), Ok(6));
    let snapshot = store.map.clone();
    for failing in 0..3usize {
        assert_eq!(control(&mut vfs, &mut store, &handle, FCNTL_BEGIN_ATOMIC_WRITE), Ok(()));
        assert_eq!(write(&mut vfs, &mut store, &handle, 0, b"AFTER!"), Ok(6));
        assert_eq!(write(&mut vfs, &mut store, &handle, 4096, b"more"), Ok(4));
        store.fail_request(failing);
        assert_eq!(
            control(&mut vfs, &mut store, &handle, FCNTL_COMMIT_ATOMIC_WRITE),
            Err(VfsError::IoWrite)
        );
        assert_eq!(store.map, snapshot);
    }
}

#[test]
fn batches_of_two_files_do_not_mix() {
    let mut vfs = GrpcVfs::new();
    let mut store = MemStore::new();
    let a = open(&mut vfs, &mut store, "a.db");
    let b = open(&mut vfs, &mut store, "b.db");
    assert_eq!(control(&mut vfs, &mut store, &a, FCNTL_BEGIN_ATOMIC_WRITE), Ok(()));
    assert_eq!(write(&mut vfs, &mut store, &a, 0, b"held"), Ok(4));
    assert_eq!(write(&mut vfs, &mut store, &b, 0, b"seen"), Ok(4));
    assert_eq!(read(&vfs, &mut store, &a, 0, 4), Ok(vec![]));
    assert_eq!(read(&vfs, &mut store, &b, 0, 4), Ok(b"seen".to_vec()));
    assert_eq!(control(&mut vfs, &mut store, &b, FCNTL_COMMIT_ATOMIC_WRITE), Ok(()));
    assert_eq!(read(&vfs, &mut store, &a, 0, 4), Ok(vec![]));
    assert_eq!(control(&mut vfs, &mut store, &a, FCNTL_COMMIT_ATOMIC_WRITE), Ok(()));
    assert_eq!(read(&vfs, &mut store, &a, 0, 4), Ok(b"held".to_vec()));
}

#[test]
fn a_batch_is_shared_by_the_handles_of_a_file() {
    let mut vfs = GrpcVfs::new();
    let mut store = MemStore::new();
    let first = open(&mut vfs, &mut store, "a.db");
    let second = open(&mut vfs, &mut store, "a.db");
    assert_eq!(control(&mut vfs, &mut store, &first, FCNTL_BEGIN_ATOMIC_WRITE), Ok(()));
    assert_eq!(write(&mut vfs, &mut store, &second, 0, b"held"), Ok(4));
    assert_eq!(read(&vfs, &mut store, &first, 0, 4), Ok(vec![]));
    assert_eq!(control(&mut vfs, &mut store, &second, FCNTL_COMMIT_ATOMIC_WRITE), Ok(()));
    assert_eq!(read(&vfs, &mut store, &first, 0, 4), Ok(b"held".to_vec()));
}

#[test]
fn close_abandons_the_batch() {
    let mut vfs = GrpcVfs::new();
    let mut store = MemStore::new();
    let handle = open(&mut vfs, &mut store, "a.db");
    assert_eq!(control(&mut vfs, &mut store, &handle, FCNTL_BEGIN_ATOMIC_WRITE), Ok(()));
    assert_eq!(write(&mut vfs, &mut store, &handle, 0, b"lost"), Ok(4));
    let served = store.served;
    assert_eq!(vfs.close(handle), Ok(false));
    assert_eq!(store.served, served);
    let handle = open(&mut vfs, &mut store, "a.db");
    assert_eq!(control(&mut vfs, &mut store, &handle, FCNTL_COMMIT_ATOMIC_WRITE), Ok(()));
    assert_eq!(read(&vfs, &mut store, &handle, 0, 4), Ok(vec![]));
    assert_eq!(write(&mut vfs, &mut store, &handle, 0, b"kept"), Ok(4));
    assert_eq!(read(&vfs, &mut store, &handle, 0, 4), Ok(b"kept".to_vec()));
}

#[test]
fn unknown_control_signals_are_not_handled() {
    let mut vfs = GrpcVfs::new();
    let mut store = MemStore::new();
    let handle = open(&mut vfs, &mut store, "a.db");
    for op in [0, 1, 30, 34, -1, i32::MAX] {
        assert_eq!(control(&mut vfs, &mut store, &handle, op), Err(VfsError::NotFound));
    }
    assert_eq!(FCNTL_BEGIN_ATOMIC_WRITE, 31);
    assert_eq!(FCNTL_COMMIT_ATOMIC_WRITE, 32);
    assert_eq!(FCNTL_ROLLBACK_ATOMIC_WRITE, 33);
}

#[test]
fn each_call_reports_its_own_failure() {
    let mut vfs = GrpcVfs::new();
    let mut store = MemStore::new();
    let handle = open(&mut vfs, &mut store, "a.db");
    assert_eq!(write(&mut vfs, &mut store, &handle, 0, &[1u8; 4096]), Ok(4096));
    assert_eq!(write(&mut vfs, &mut store, &handle, 4096, &[1u8; 4096]), Ok(4096));

    store.fail_request(0);
    assert_eq!(read(&vfs, &mut store, &handle, 0, 1), Err(VfsError::IoRead));
    store.fail_request(0);
    assert_eq!(write(&mut vfs, &mut store, &handle, 0, b"x"), Err(VfsError::IoWrite));
    store.fail_request(1);
    assert_eq!(write(&mut vfs, &mut store, &handle, 0, b"x"), Err(VfsError::IoWrite));
    store.fail_request(1);
    assert_eq!(file_size(&vfs, &mut store, &handle), Err(VfsError::IoFstat));
    store.fail_request(0);
    assert_eq!(access(&vfs, &mut store, "a.db"), Err(VfsError::IoAccess));
    store.fail_request(0);
    assert_eq!(run(&mut store, vfs.sync(&handle), SyncOp::resume), Err(VfsError::IoFsync));
    store.fail_request(1);
    assert_eq!(truncate(&vfs, &mut store, &handle, 100), Err(VfsError::IoTruncate));
    store.fail_request(0);
    assert_eq!(truncate(&vfs, &mut store, &handle, 0), Err(VfsError::IoDelete));
    store.fail_request(0);
    assert_eq!(delete(&vfs, &mut store, "a.db"), Err(VfsError::IoDelete));
    assert_eq!(run(&mut store, vfs.sync(&handle), SyncOp::resume), Ok(()));
}

#[test]
fn a_reply_of_the_wrong_kind_is_a_failure() {
    let vfs = GrpcVfs::new();
    let handle = GrpcVfsHandle::new("a.db".to_string(), false, 1);
    match vfs.read(&handle, 0, 4) {
        Step::Ask(_, op) => match op.resume(StoreReply::Done) {
            Step::Done(result) => assert_eq!(result, Err(VfsError::IoRead)),
            _ => panic!("a read has one exchange"),
        },
        _ => panic!("a read asks for its page"),
    }
    match vfs.sync(&handle) {
        Step::Ask(_, op) => match op.resume(StoreReply::Value(None)) {
            Step::Done(result) => assert_eq!(result, Err(VfsError::IoFsync)),
            _ => panic!("a flush has one exchange"),
        },
        _ => panic!("a flush asks the store"),
    }
    match vfs.delete("a.db") {
        Step::Ask(_, op) => match op.resume(StoreReply::Done) {
            Step::Done(result) => assert_eq!(result, Err(VfsError::IoDelete)),
            _ => panic!("the deletion should have ended"),
        },
        _ => panic!("a deletion asks for the first page"),
    }
}

#[test]
fn failures_have_the_codes_of_the_engine() {
    assert_eq!(VfsError::CantOpen.code(), 14);
    assert_eq!(VfsError::NotFound.code(), 12);
    assert_eq!(VfsError::IoRead.code(), 10 | (1 << 8));
    assert_eq!(VfsError::IoWrite.code(), 10 | (3 << 8));
    assert_eq!(VfsError::IoFsync.code(), 10 | (4 << 8));
    assert_eq!(VfsError::IoTruncate.code(), 10 | (6 << 8));
    assert_eq!(VfsError::IoFstat.code(), 10 | (7 << 8));
    assert_eq!(VfsError::IoDelete.code(), 10 | (10 << 8));
    assert_eq!(VfsError::IoAccess.code(), 10 | (13 << 8));
}

#[test]
fn the_adapter_reports_what_it_can_do() {
    let vfs = GrpcVfs::new();
    assert_eq!(vfs.sector_size(), 4096);
    assert_eq!(vfs.device_characteristics(), 0x1 | 0x200 | 0x400 | 0x1000 | 0x4000);
}

const LEVELS: [LockLevel; 5] = [
    LockLevel::Unlocked,
    LockLevel::Shared,
    LockLevel::Reserved,
    LockLevel::Pending,
    LockLevel::Exclusive,
];

/// Whether the level of the column can be taken while another handle
/// holds the level of the row.
const MATRIX: [[bool; 5]; 5] = [
    [true, true, true, true, false],
    [true, true, true, true, false],
    [true, true, false, false, false],
    [true, true, false, false, false],
    [false, false, false, false, false],
];

#[test]
fn the_adapter_grants_a_second_lock_iff_the_levels_are_compatible() {
    for (h, held) in LEVELS.iter().enumerate() {
        for (r, requested) in LEVELS.iter().enumerate() {
            let mut vfs = GrpcVfs::new();
            let mut store = MemStore::new();
            let first = open(&mut vfs, &mut store, "a.db");
            let second = open(&mut vfs, &mut store, "a.db");
            assert_eq!(vfs.lock(&first, *held), LockOutcome::Granted);
            let expected = if *held == LockLevel::Unlocked || MATRIX[h][r] {
                LockOutcome::Granted
            } else {
                LockOutcome::MustWait
            };
            assert_eq!(vfs.lock(&second, *requested), expected, "{:?} beside {:?}", requested, held);
        }
    }
}

#[test]
fn the_adapter_makes_a_second_reserved_wait_for_the_release() {
    let mut vfs = GrpcVfs::new();
    let mut store = MemStore::new();
    let first = open(&mut vfs, &mut store, "a.db");
    let second = open(&mut vfs, &mut store, "a.db");
    assert_eq!(vfs.lock(&first, LockLevel::Shared), LockOutcome::Granted);
    assert_eq!(vfs.lock(&second, LockLevel::Shared), LockOutcome::Granted);
    assert_eq!(vfs.lock(&first, LockLevel::Reserved), LockOutcome::Granted);
    assert_eq!(vfs.lock(&second, LockLevel::Reserved), LockOutcome::MustWait);
    assert_eq!(vfs.lock(&second, LockLevel::Shared), LockOutcome::Granted);
    assert_eq!(vfs.lock(&first, LockLevel::Pending), LockOutcome::Granted);
    assert_eq!(vfs.lock(&first, LockLevel::Exclusive), LockOutcome::MustWait);
    assert!(vfs.unlock(&second, LockLevel::Unlocked));
    assert_eq!(vfs.lock(&first, LockLevel::Exclusive), LockOutcome::Granted);
    assert_eq!(vfs.lock(&second, LockLevel::Shared), LockOutcome::MustWait);
    assert!(vfs.unlock(&first, LockLevel::Shared));
    assert_eq!(vfs.lock(&second, LockLevel::Shared), LockOutcome::Granted);
    assert_eq!(vfs.lock(&second, LockLevel::Reserved), LockOutcome::Granted);
}

#[test]
fn a_handle_of_the_adapter_never_waits_for_itself() {
    let mut vfs = GrpcVfs::new();
    let mut store = MemStore::new();
    let handle = open(&mut vfs, &mut store, "a.db");
    for level in LEVELS.iter().skip(1) {
        assert_eq!(vfs.lock(&handle, *level), LockOutcome::Granted);
    }
    assert_eq!(vfs.lock(&handle, LockLevel::Exclusive), LockOutcome::Granted);
    assert_eq!(vfs.lock(&handle, LockLevel::Shared), LockOutcome::Granted);
}

#[test]
fn locks_of_the_adapter_are_per_file() {
    let mut vfs = GrpcVfs::new();
    let mut store = MemStore::new();
    let a = open(&mut vfs, &mut store, "a.db");
    let b = open(&mut vfs, &mut store, "b.db");
    assert_eq!(vfs.lock(&a, LockLevel::Exclusive), LockOutcome::Granted);
    assert_eq!(vfs.lock(&b, LockLevel::Exclusive), LockOutcome::Granted);
    assert!(!vfs.unlock(&GrpcVfsHandle::new("c.db".to_string(), false, 9), LockLevel::Unlocked));
    assert!(vfs.unlock(&a, LockLevel::Unlocked));
    assert!(!vfs.unlock(&a, LockLevel::Unlocked));
    assert!(vfs.unlock(&b, LockLevel::Shared));
}

#[test]
fn close_drops_the_lock_and_wakes_the_waiters() {
    let mut vfs = GrpcVfs::new();
    let mut store = MemStore::new();
    let first = open(&mut vfs, &mut store, "a.db");
    let second = open(&mut vfs, &mut store, "a.db");
    let idle = open(&mut vfs, &mut store, "b.db");
    assert_eq!(vfs.close(idle), Ok(false));
    assert_eq!(vfs.lock(&first, LockLevel::Exclusive), LockOutcome::Granted);
    assert_eq!(vfs.lock(&second, LockLevel::Shared), LockOutcome::MustWait);
    let served = store.served;
    assert_eq!(vfs.close(first), Ok(true));
    assert_eq!(store.served, served);
    assert_eq!(vfs.lock(&second, LockLevel::Shared), LockOutcome::Granted);
    assert_eq!(vfs.lock(&second, LockLevel::Exclusive), LockOutcome::Granted);
    assert_eq!(vfs.close(second), Ok(true));
    let again = open(&mut vfs, &mut store, "a.db");
    assert!(!vfs.unlock(&again, LockLevel::Unlocked));
    assert_eq!(vfs.close(again), Ok(false));
}

#[test]
fn locks_leave_files_and_batches_alone() {
    let mut vfs = GrpcVfs::new();
    let mut store = MemStore::new();
    let first = open(&mut vfs, &mut store, "a.db");
    let second = open(&mut vfs, &mut store, "a.db");
    assert_eq!(control(&mut vfs, &mut store, &first, FCNTL_BEGIN_ATOMIC_WRITE), Ok(()));
    assert_eq!(write(&mut vfs, &mut store, &first, 0, b"held"), Ok(4));
    let served = store.served;
    assert_eq!(vfs.lock(&first, LockLevel::Reserved), LockOutcome::Granted);
    assert_eq!(vfs.lock(&second, LockLevel::Reserved), LockOutcome::MustWait);
    assert!(vfs.unlock(&first, LockLevel::Shared));
    assert_eq!(store.served, served);
    assert_eq!(control(&mut vfs, &mut store, &first, FCNTL_COMMIT_ATOMIC_WRITE), Ok(()));
    assert_eq!(read(&vfs, &mut store, &second, 0, 4), Ok(b"held".to_vec()));
    assert_eq!(vfs.lock(&second, LockLevel::Reserved), LockOutcome::Granted);
}

#[test]
fn a_write_too_long_for_its_page_is_refused() {
    let mut vfs = GrpcVfs::new();
    let store = MemStore::new();
    let handle = GrpcVfsHandle::new("a.db".to_string(), false, 1);
    assert_eq!(store.served, 0);
    match vfs.write(&handle, usize::MAX, &[]) {
        Step::Ask(StoreRequest::Get { key }, _) => {
            assert_eq!(key, format!("a.db:page:{}", usize::MAX - 4095));
        }
        _ => panic!("an empty write at the last offset fits its page"),
    }
}

/// What a read of `len` bytes at `offset` gets from a flat file.
fn flat_read(file: &[u8], offset: usize, len: usize) -> Vec<u8> {
    if offset >= file.len() {
        return vec![];
    }
    let page_end = (offset / 4096 + 1) * 4096;
    let end = (offset + len).min(page_end).min(file.len());
    file[offset..end].to_vec()
}

#[test]
fn the_adapter_behaves_like_a_flat_file() {
    let mut vfs = GrpcVfs::new();
    let mut store = MemStore::new();
    let handle = open(&mut vfs, &mut store, "a.db");
    let mut flat: Vec<u8> = Vec::new();
    let mut seed: u64 = 0x9e3779b97f4a7c15;
    let mut next = |bound: usize| -> usize {
        seed = seed.wrapping_mul(6364136223846793005).wrapping_add(1442695040888963407);
        ((seed >> 33) as usize) % bound
    };
    for round in 0..400usize {
        match next(4) {
            0 | 1 => {
                // A write inside one page, at a page that starts no later than the file ends.
                let page = next(flat.len() / 4096 + 1) * 4096;
                let at = next(4096);
                let len = next(4096 - at + 1);
                let data: Vec<u8> = (0..len).map(|i| (round + i) as u8 | 1).collect();
                assert_eq!(write(&mut vfs, &mut store, &handle, page + at, &data), Ok(len));
                if flat.len() < page + at + len {
                    flat.resize(page + at + len, 0);
                }
                flat[page + at..page + at + len].copy_from_slice(&data);
            }
            2 => {
                let size = next(flat.len() + 5000);
                assert_eq!(truncate(&vfs, &mut store, &handle, size), Ok(()));
                if size < flat.len() {
                    flat.truncate(size);
                }
                if size == 0 {
                    assert_eq!(access(&vfs, &mut store, "a.db"), Ok(false));
                }
            }
            _ => {
                let offset = next(flat.len() + 5000);
                let len = next(6000);
                assert_eq!(
                    read(&vfs, &mut store, &handle, offset, len),
                    Ok(flat_read(&flat, offset, len))
                );
            }
        }
        assert_eq!(file_size(&vfs, &mut store, &handle), Ok(flat.len()));
        assert!(store.dense("a.db"));
    }
    let mut whole = Vec::new();
    let mut offset = 0;
    while offset < flat.len() {
        whole.extend(read(&vfs, &mut store, &handle, offset, 4096).unwrap());
        offset += 4096;
    }
    assert_eq!(whole, flat);
}

#[test]
fn a_batch_behaves_like_its_writes_on_a_flat_file() {
    let mut vfs = GrpcVfs::new();
    let mut store = MemStore::new();
    let handle = open(&mut vfs, &mut store, "a.db");
    let mut flat: Vec<u8> = Vec::new();
    assert_eq!(control(&mut vfs, &mut store, &handle, FCNTL_BEGIN_ATOMIC_WRITE), Ok(()));
    for (k, page) in [0usize, 1, 0, 2, 1, 3, 3, 0].iter().enumerate() {
        let at = (k * 577) % 4000;
        let data = vec![k as u8 + 1; 96];
        let offset = if *page * 4096 > flat.len() { flat.len() / 4096 * 4096 } else { *page * 4096 };
        assert_eq!(write(&mut vfs, &mut store, &handle, offset + at, &data), Ok(96));
        if flat.len() < offset + at + 96 {
            flat.resize(offset + at + 96, 0);
        }
        flat[offset + at..offset + at + 96].copy_from_slice(&data);
    }
    assert_eq!(file_size(&vfs, &mut store, &handle), Ok(0));
    assert_eq!(control(&mut vfs, &mut store, &handle, FCNTL_COMMIT_ATOMIC_WRITE), Ok(()));
    assert_eq!(file_size(&vfs, &mut store, &handle), Ok(flat.len()));
    let mut offset = 0;
    while offset < flat.len() {
        assert_eq!(
            read(&vfs, &mut store, &handle, offset, 4096),
            Ok(flat_read(&flat, offset, 4096))
        );
        offset += 4096;
    }
}
