use branchless::mergebase::{MergeBaseCache, MergeBaseRow};
use branchless::oid::Oid;

fn oid(digit: char) -> Oid {
    let text: String = std::iter::repeat(digit).take(40).collect();
    Oid::parse(&text).unwrap()
}

#[test]
fn test_cache_misses_when_empty() {
    let cache = MergeBaseCache::new();
    assert_eq!(cache.get_merge_base_oid(oid('a'), oid('b')), None);
    assert_eq!(cache.rows().len(), 0);
}

#[test]
fn test_cache_answers_in_either_order() {
    let mut cache = MergeBaseCache::new();
    cache.store(oid('b'), oid('a'), Some(oid('c')));
    assert_eq!(cache.get_merge_base_oid(oid('a'), oid('b')), Some(Some(oid('c'))));
    assert_eq!(cache.get_merge_base_oid(oid('b'), oid('a')), Some(Some(oid('c'))));
    assert_eq!(cache.get_merge_base_oid(oid('a'), oid('c')), None);
    assert_eq!(
        cache.rows(),
        &vec![MergeBaseRow {
            lhs_oid: oid('a'),
            rhs_oid: oid('b'),
            merge_base_oid: Some(oid('c'))
        }]
    );
}

#[test]
fn test_cache_remembers_that_there_is_no_merge_base() {
    let mut cache = MergeBaseCache::new();
    cache.store(oid('a'), oid('b'), None);
    assert_eq!(cache.get_merge_base_oid(oid('a'), oid('b')), Some(None));
    assert_eq!(cache.get_merge_base_oid(oid('a'), oid('a')), None);
}

#[test]
fn test_cache_overwrites() {
    let mut cache = MergeBaseCache::new();
    cache.store(oid('a'), oid('b'), None);
    cache.store(oid('c'), oid('d'), Some(oid('c')));
    cache.store(oid('b'), oid('a'), Some(oid('a')));
    assert_eq!(cache.get_merge_base_oid(oid('a'), oid('b')), Some(Some(oid('a'))));
    assert_eq!(cache.get_merge_base_oid(oid('d'), oid('c')), Some(Some(oid('c'))));
    assert_eq!(cache.rows().len(), 2);
}

#[test]
fn test_cache_remember_stores_answers_only() {
    let mut cache = MergeBaseCache::new();
    let failed: Result<Option<Oid>, String> = Err("no such commit".to_owned());
    assert_eq!(cache.remember(oid('a'), oid('b'), failed.clone()), failed);
    assert_eq!(cache.get_merge_base_oid(oid('a'), oid('b')), None);
    let answer: Result<Option<Oid>, String> = Ok(Some(oid('a')));
    assert_eq!(cache.remember(oid('a'), oid('b'), answer.clone()), answer);
    assert_eq!(cache.get_merge_base_oid(oid('b'), oid('a')), Some(Some(oid('a'))));
}

#[test]
fn test_cache_from_rows() {
    let rows = vec![
        MergeBaseRow { lhs_oid: oid('a'), rhs_oid: oid('b'), merge_base_oid: Some(oid('a')) },
        MergeBaseRow { lhs_oid: oid('a'), rhs_oid: oid('b'), merge_base_oid: None },
    ];
    let cache = MergeBaseCache::from_rows(rows);
    assert_eq!(cache.get_merge_base_oid(oid('b'), oid('a')), Some(Some(oid('a'))));
}
