use easy_file::cache::disk::{
    ChunkedCopy, CopyStep, MemRead, ReadPlan, ReadStep, NODE_SIZE,
};
use easy_file::cache::{CacheFlag, DiskCache};
use easy_file::file_opt::FileAttr;

fn cache() -> DiskCache {
    DiskCache::new("s3://ak@sk/host/bucket/obj", CacheFlag { node_size: 20, cache_maxsize: 20 })
}

#[test]
fn new_cache_is_empty() {
    let c = cache();
    assert!(c.is_empty());
    assert!(DiskCache::erase(3));
}

#[test]
fn node_digest_is_sha256_hex() {
    let mut c = cache();
    let d = c.node_digest("crypto-hash".to_string());
    assert_eq!(d, "fd1afb6022cd4d47c890961c533928eacfe8219f1b2524f7fb2a61847ddf8c27");
    let again = c.node_digest("crypto-hash".to_string());
    assert_eq!(again, d);
    let abc = c.node_digest("abc".to_string());
    assert_eq!(abc, "ba7816bf8f01cfea414140de5dae2223b00361a396177a9cb410ff61f20015ad");
}

#[test]
fn locate_splits_offset_into_nodes() {
    let mut c = cache();
    let attr = FileAttr { file_size: 100, last_modify: "Mon".to_string() };
    let n = c.locate(&attr, 0);
    assert_eq!((n.num, n.node_offset, n.node_start), (0, 0, 0));
    let n = c.locate(&attr, NODE_SIZE + 5);
    assert_eq!((n.num, n.node_offset, n.node_start), (1, 5, NODE_SIZE));
    let n = c.locate(&attr, 3 * NODE_SIZE - 1);
    assert_eq!((n.num, n.node_offset, n.node_start), (2, NODE_SIZE - 1, 2 * NODE_SIZE));
}

#[test]
fn locate_names_file_by_digest_of_factors() {
    let mut c = cache();
    let attr = FileAttr { file_size: 100, last_modify: "Mon".to_string() };
    let n = c.locate(&attr, NODE_SIZE + 5);
    let mut other = cache();
    let expected = other.node_digest("Mons3://ak@sk/host/bucket/obj1100".to_string());
    assert_eq!(n.path, format!("./cache/{}", expected));
    assert_eq!(n.path.len(), "./cache/".len() + 64);
    let same_node = c.locate(&attr, NODE_SIZE);
    assert_eq!(same_node.path, n.path);
    let next_node = c.locate(&attr, 2 * NODE_SIZE);
    assert_ne!(next_node.path, n.path);
}

#[test]
fn plan_for_each_cache_file_state() {
    let r = MemRead::new(NODE_SIZE + 10, 4);
    assert_eq!(r.plan(10, None), ReadPlan::Refetch);
    assert_eq!(r.plan(10, Some(NODE_SIZE)), ReadPlan::Take { count: 4, last: true });
    assert_eq!(r.plan(10, Some(14)), ReadPlan::Take { count: 4, last: true });
    assert_eq!(r.plan(10, Some(12)), ReadPlan::Take { count: 2, last: false });
    assert_eq!(r.plan(10, Some(10)), ReadPlan::Take { count: 0, last: false });
    assert_eq!(r.plan(10, Some(5)), ReadPlan::Abort);
}

#[test]
fn accept_gathers_exact_reads() {
    let mut r = MemRead::new(8, 4);
    assert_eq!(r.accept(2, false, vec![1, 2, 3]), ReadStep::Refetch);
    assert_eq!(r.offset(), 8);
    assert_eq!(r.accept(2, false, vec![1, 2]), ReadStep::Next);
    assert_eq!(r.offset(), 10);
    assert_eq!(r.accept(4, true, vec![3, 4, 5, 6]), ReadStep::Done);
    assert_eq!(r.offset(), 10);
    assert_eq!(r.into_data(), vec![1, 2, 3, 4, 5, 6]);
}

#[test]
fn accept_stops_before_overflow() {
    let mut r = MemRead::new(i64::MAX - 1, 4);
    assert_eq!(r.accept(2, false, vec![1, 2]), ReadStep::Abort);
    assert_eq!(r.into_data(), Vec::<u8>::new());
}

#[test]
fn copy_within_one_node() {
    let mut c = ChunkedCopy::new(5, 10);
    assert_eq!(c.request(), (5, 10));
    assert_eq!(c.accept(10), CopyStep::WriteDone);
}

#[test]
fn copy_retries_short_read_as_later_piece() {
    let mut c = ChunkedCopy::new(5, 10);
    assert_eq!(c.accept(9), CopyStep::Again);
    assert_eq!(c.request(), (5, 10));
    assert_eq!(c.accept(10), CopyStep::WriteDone);
}

#[test]
fn copy_across_nodes_first_reads_to_node_end() {
    let mut c = ChunkedCopy::new(NODE_SIZE - 2, 5);
    assert_eq!(c.request(), (NODE_SIZE - 2, 2));
    assert_eq!(c.accept(5), CopyStep::WriteMore);
    assert_eq!(c.request(), (NODE_SIZE, 3));
    assert_eq!(c.accept(3), CopyStep::WriteDone);
}

#[test]
fn copy_head_mismatch_falls_back_to_whole_length() {
    let mut c = ChunkedCopy::new(NODE_SIZE - 2, 5);
    assert_eq!(c.accept(2), CopyStep::Again);
    assert_eq!(c.request(), (NODE_SIZE - 2, 5));
}

#[test]
fn copy_of_nothing_is_done_at_once() {
    let mut c = ChunkedCopy::new(0, 0);
    assert_eq!(c.request(), (0, 0));
    assert_eq!(c.accept(0), CopyStep::WriteDone);
}
