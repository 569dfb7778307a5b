use qrush_engine::config::parse_queues;
use qrush_engine::queue::{job_key, key_for, queue_key};

fn triples(spec: &str) -> Vec<(String, usize, usize)> {
    parse_queues(spec).into_iter().map(|q| (q.name, q.concurrency, q.priority)).collect()
}

#[test]
fn queue_list_with_defaults() {
    assert_eq!(
        triples("default:10,critical:25:0"),
        vec![("default".to_string(), 10, 0), ("critical".to_string(), 25, 0)]
    );
    assert_eq!(triples("mail"), vec![("mail".to_string(), 5, 0)]);
    assert_eq!(triples(" a : x : 3 , ,b::7"), vec![("a".to_string(), 5, 0), ("b".to_string(), 5, 7)]);
    assert_eq!(triples("q: 10"), vec![("q".to_string(), 5, 0)]);
    assert!(triples(" , ,").is_empty());
    assert_eq!(triples(":4"), vec![("".to_string(), 4, 0)]);
}

#[test]
fn storage_keys() {
    assert_eq!(queue_key("default"), "qrush_engine:queue:default");
    assert_eq!(job_key("abc"), "qrush_engine:job:abc");
    assert_eq!(key_for("p", ""), "p:");
}
