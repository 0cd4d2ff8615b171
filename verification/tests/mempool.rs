use rust_dpdk::mempool::{default_cache, generic_put, put, put_bulk, Mempool, MempoolCache};

fn cache(size: u32, flushthresh: u32) -> MempoolCache {
    MempoolCache { size, flushthresh, len: 0, objs: vec![] }
}

fn pool_with_caches(size: u32, flushthresh: u32) -> Mempool {
    Mempool { local_cache: (0..128).map(|_| cache(size, flushthresh)).collect() }
}

#[test]
fn cache_fills_then_flushes_above_size() {
    let mut c = cache(2, 3);
    assert_eq!(c.put(&[7]), Vec::<usize>::new());
    assert_eq!(c.put(&[8]), Vec::<usize>::new());
    assert_eq!(c.len, 2);
    // reaching the threshold hands the objects above `size` to the backend
    assert_eq!(c.put(&[9]), vec![9]);
    assert_eq!(c.len, 2);
    assert_eq!(c.objs, vec![7, 8]);
}

#[test]
fn cache_flush_of_a_bulk_put() {
    let mut c = cache(1, 2);
    let flushed = c.put(&[1, 2, 3, 4]);
    assert_eq!(flushed, vec![2, 3, 4]);
    assert_eq!(c.objs, vec![1]);
    assert_eq!(c.len, 1);
}

#[test]
fn put_goes_to_the_lcore_cache() {
    let mut mp = pool_with_caches(4, 6);
    assert_eq!(default_cache(&mp, 5), Some(5));
    // LCORE_ID_ANY and other ids past the last lcore have no cache
    assert_eq!(default_cache(&mp, u32::MAX), None);
    assert_eq!(default_cache(&mp, 128), None);
    assert_eq!(put(&mut mp, u32::MAX, 43), vec![43]);
    assert_eq!(put(&mut mp, 5, 42), Vec::<usize>::new());
    assert_eq!(mp.local_cache[5].objs, vec![42]);
    assert_eq!(mp.local_cache[4].len, 0);
}

#[test]
fn pool_without_cache_sends_everything_to_backend() {
    let mut mp = Mempool { local_cache: vec![] };
    assert_eq!(default_cache(&mp, 3), None);
    assert_eq!(put_bulk(&mut mp, 3, &[1, 2, 3]), vec![1, 2, 3]);
    assert_eq!(put(&mut mp, 0, 9), vec![9]);
}

#[test]
fn oversized_put_bypasses_the_cache() {
    let mut mp = pool_with_caches(4, 6);
    let table: Vec<usize> = (0..513).collect();
    let flushed = generic_put(&mut mp, &table, Some(0));
    assert_eq!(flushed, table);
    assert_eq!(mp.local_cache[0].len, 0);
    // at the limit the cache is used
    let table: Vec<usize> = (0..512).collect();
    let flushed = generic_put(&mut mp, &table, Some(1));
    assert_eq!(flushed, (4..512).collect::<Vec<usize>>());
    assert_eq!(mp.local_cache[1].objs, vec![0, 1, 2, 3]);
}

#[test]
fn no_cache_given_sends_to_backend() {
    let mut mp = pool_with_caches(4, 6);
    assert_eq!(generic_put(&mut mp, &[5, 6], None), vec![5, 6]);
    assert_eq!(mp.local_cache[0].len, 0);
}
