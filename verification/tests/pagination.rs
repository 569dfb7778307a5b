use qrush_engine::utils::pagination::{Pagination, PaginationQuery};
use qrush_engine::utils::renderer::paginate_jobs;

fn ids(n: usize) -> Vec<String> {
    (0..n).map(|i| format!("job{i}")).collect()
}

#[test]
fn first_page_of_many() {
    let p = Pagination::new(1, 10, 25);
    assert_eq!(p.page, 1);
    assert_eq!(p.limit, 10);
    assert_eq!(p.total, 25);
    assert!(!p.has_prev);
    assert!(p.has_next);
    assert_eq!(p.offset(), 0);
    assert_eq!(p.item_range(), (0, 10));
}

#[test]
fn last_page() {
    let p = Pagination::new(3, 10, 25);
    assert!(p.has_prev);
    assert!(!p.has_next);
    assert_eq!(p.offset(), 20);
    assert_eq!(p.item_range(), (20, 25));
}

#[test]
fn exact_fit_has_no_next() {
    let p = Pagination::new(2, 5, 10);
    assert!(!p.has_next);
    assert!(p.has_prev);
}

#[test]
fn page_zero_offsets_like_page_one() {
    let p = Pagination::new(0, 10, 3);
    assert_eq!(p.offset(), 0);
    assert!(!p.has_prev);
}

#[test]
fn query_defaults() {
    let q = PaginationQuery { page: None, limit: None };
    let p = q.into_pagination(42);
    assert_eq!((p.page, p.limit, p.total), (1, 10, 42));
    let q = PaginationQuery { page: Some(0), limit: Some(0) };
    let p = q.into_pagination(42);
    assert_eq!((p.page, p.limit), (1, 1));
    assert!(p.has_next);
    let q = PaginationQuery { page: Some(5), limit: Some(20) };
    let p = q.into_pagination(42);
    assert_eq!((p.page, p.limit), (5, 20));
    assert!(!p.has_next);
}

#[test]
fn paginate_middle_page() {
    let (page, p) = paginate_jobs(ids(25), 2, 10);
    assert_eq!(page, (10..20).map(|i| format!("job{i}")).collect::<Vec<_>>());
    assert!(p.has_prev && p.has_next);
}

#[test]
fn paginate_past_the_end_is_empty() {
    let (page, p) = paginate_jobs(ids(5), 3, 10);
    assert!(page.is_empty());
    assert_eq!(p.total, 5);
    assert!(!p.has_next);
}

#[test]
fn paginate_short_last_page() {
    let (page, _) = paginate_jobs(ids(7), 2, 5);
    assert_eq!(page, vec!["job5".to_string(), "job6".to_string()]);
}

#[test]
fn reading_pages_until_the_last_gives_every_item_once() {
    let items: Vec<String> = (0..23).map(|i| format!("job{}", i)).collect();
    for limit in [1usize, 4, 5, 10, 23, 30] {
        let mut seen: Vec<String> = Vec::new();
        let mut page = 1usize;
        loop {
            let (chunk, p) = paginate_jobs(items.clone(), page, limit);
            seen.extend(chunk);
            if !p.has_next {
                break;
            }
            page += 1;
        }
        assert_eq!(seen, items, "limit {}", limit);
        assert_eq!(page, (items.len() + limit - 1) / limit);
    }
}
