use bonsai::cache::TestCache;
use bonsai::languages;
use bonsai::parse;
use bonsai::queue::ReductionQueue;
use bonsai::tree::SyntaxTree;

fn make_tree(source: &[u8]) -> SyntaxTree {
    let lang = languages::get_language("python").unwrap();
    parse::parse(source, &lang).unwrap()
}

#[test]
fn test_cache_miss_then_hit() {
    let mut cache = TestCache::new();
    assert_eq!(cache.get(b"hello world"), None);
    assert_eq!(cache.misses(), 1);
    assert_eq!(cache.hits(), 0);
    cache.put(b"hello world", true);
    assert_eq!(cache.get(b"hello world"), Some(true));
    assert_eq!(cache.hits(), 1);
    assert_eq!(cache.misses(), 1);
}

#[test]
fn test_cache_different_content() {
    let mut cache = TestCache::new();
    cache.put(b"content A", true);
    cache.put(b"content B", false);
    assert_eq!(cache.get(b"content A"), Some(true));
    assert_eq!(cache.get(b"content B"), Some(false));
    assert_eq!(cache.get(b"content C"), None);
}

#[test]
fn test_cache_hit_rate() {
    let mut cache = TestCache::new();
    cache.put(b"data", true);
    cache.get(b"data");
    cache.get(b"data");
    cache.get(b"other");
    assert_eq!(cache.hits(), 2);
    assert_eq!(cache.misses(), 1);
    assert_eq!(cache.lookups(), 3);
    let rate = cache.hits() as f64 / cache.lookups() as f64;
    assert!((rate - 2.0 / 3.0).abs() < 0.01);
}

#[test]
fn test_cache_empty() {
    let cache = TestCache::new();
    assert!(cache.is_empty());
    assert_eq!(cache.len(), 0);
    assert_eq!(cache.lookups(), 0);
}

#[test]
fn test_cache_overwrite() {
    let mut cache = TestCache::new();
    cache.put(b"data", true);
    cache.put(b"data", false);
    assert_eq!(cache.get(b"data"), Some(false));
    assert_eq!(cache.len(), 1);
}

#[test]
fn test_cache_get_after_put_law() {
    let mut cache = TestCache::new();
    cache.put(b"abc", false);
    cache.put(b"xyz", true);
    assert_eq!(cache.get(b"abc"), Some(false));
    assert_eq!(cache.get(b"xyz"), Some(true));
}

#[test]
fn test_queue_pops_largest_first() {
    let tree = make_tree(b"x = 1\ny = 2 + 3\nz = 4");
    let mut queue = ReductionQueue::from_tree(&tree);
    let mut prev_count = usize::MAX;
    while let Some(entry) = queue.pop() {
        assert!(
            entry.token_count <= prev_count,
            "Queue should pop in descending token count order: got {} after {}",
            entry.token_count,
            prev_count
        );
        prev_count = entry.token_count;
    }
}

#[test]
fn test_queue_ties_pop_earlier_start_first() {
    let tree = make_tree(b"x = 1\ny = 2\nz = 3");
    let mut queue = ReductionQueue::from_tree(&tree);
    let mut prev: Option<(usize, usize)> = None;
    while let Some(entry) = queue.pop() {
        if let Some((count, start)) = prev {
            if count == entry.token_count {
                assert!(start <= entry.start_byte);
            }
        }
        prev = Some((entry.token_count, entry.start_byte));
    }
}

#[test]
fn test_queue_entries_are_byte_ranges() {
    let source = b"x = 1";
    let tree = make_tree(source);
    let mut queue = ReductionQueue::from_tree(&tree);
    while let Some(entry) = queue.pop() {
        assert!(entry.start_byte <= entry.end_byte);
        assert!(entry.end_byte <= source.len());
    }
}

#[test]
fn test_queue_only_named_nodes() {
    let tree = make_tree(b"x = 1");
    let queue = ReductionQueue::from_tree(&tree);
    assert!(queue.len() >= 3, "Should have multiple named nodes, got {}", queue.len());
    let named = tree.nodes.iter().filter(|n| n.is_named).count();
    assert_eq!(queue.len(), named);
}

#[test]
fn test_queue_rebuild_after_modification() {
    let tree1 = make_tree(b"x = 1\ny = 2\nz = 3");
    let mut queue = ReductionQueue::from_tree(&tree1);
    let original_len = queue.len();
    let tree2 = make_tree(b"x = 1");
    queue.rebuild(&tree2);
    assert!(
        queue.len() < original_len,
        "Rebuilt queue should have fewer entries: {} vs {}",
        queue.len(),
        original_len
    );
}

#[test]
fn test_queue_empty_source() {
    let tree = make_tree(b"");
    let queue = ReductionQueue::from_tree(&tree);
    assert!(queue.len() <= 1);
}

#[test]
fn test_queue_pop_returns_none_when_empty() {
    let tree = make_tree(b"");
    let mut queue = ReductionQueue::from_tree(&tree);
    while queue.pop().is_some() {}
    assert!(queue.pop().is_none());
    assert!(queue.is_empty());
}

#[test]
fn test_token_count_of_root_counts_leaves() {
    let tree = make_tree(b"x = 1");
    let leaves = (0..tree.nodes.len())
        .filter(|&k| k + 1 >= tree.nodes.len() || tree.nodes[k + 1].depth <= tree.nodes[k].depth)
        .count();
    assert_eq!(tree.token_count(0), leaves);
    assert_eq!(leaves, 3);
}
