use test_rocket_back::pagination::{Paginate, Paginated, Pagination, PaginationResult};

fn numbered(n: i64) -> Vec<i64> {
    let mut v = Vec::new();
    let mut i: i64 = 1;
    while i <= n {
        v.push(i);
        i += 1;
    }
    v
}

fn load(n: i64, page: i64, per_page: i64) -> PaginationResult<i64> {
    numbered(n).paginate(page).per_page(per_page).load_and_count_pages()
}

#[test]
fn total_pages_is_ceiling() {
    assert_eq!(load(0, 1, 10).total_pages, 0);
    assert_eq!(load(1, 1, 10).total_pages, 1);
    assert_eq!(load(10, 1, 10).total_pages, 1);
    assert_eq!(load(11, 1, 10).total_pages, 2);
    assert_eq!(load(25, 1, 10).total_pages, 3);
    assert_eq!(load(100, 1, 100).total_pages, 1);
    assert_eq!(load(101, 1, 100).total_pages, 2);
}

#[test]
fn total_pages_zero_only_when_empty() {
    for n in 0..30i64 {
        let r = load(n, 1, 7);
        assert_eq!(r.total_pages == 0, n == 0);
    }
}

#[test]
fn slice_len_is_min_of_per_page_and_rest() {
    // 25 rows at 10 a page: pages of 10, 10 and 5 rows.
    assert_eq!(load(25, 1, 10).items.len(), 10);
    assert_eq!(load(25, 2, 10).items.len(), 10);
    assert_eq!(load(25, 3, 10).items.len(), 5);
}

#[test]
fn page_past_end_is_empty_with_true_total() {
    let r = load(25, 4, 10);
    assert!(r.items.is_empty());
    assert_eq!(r.total_items, 25);
    assert_eq!(r.total_pages, 3);

    let far = load(25, i64::MAX, 10);
    assert!(far.items.is_empty());
    assert_eq!(far.total_items, 25);
}

#[test]
fn slice_preserves_base_order() {
    let r = load(7, 2, 3);
    assert_eq!(r.items, vec![4, 5, 6]);
    assert_eq!(r.page, 2);
    assert_eq!(r.per_page, 3);
    assert_eq!(r.total_items, 7);
    assert_eq!(r.total_pages, 3);
}

#[test]
fn page_below_one_is_clamped_to_one() {
    let r = load(5, 0, 2);
    assert_eq!(r.page, 1);
    assert_eq!(r.items, vec![1, 2]);
    let r = load(5, -9, 2);
    assert_eq!(r.page, 1);
    assert_eq!(r.items, vec![1, 2]);
}

#[test]
fn per_page_is_clamped_into_range() {
    let r = load(5, 1, 0);
    assert_eq!(r.per_page, 1);
    assert_eq!(r.items, vec![1]);
    let r = load(5, 1, -4);
    assert_eq!(r.per_page, 1);
    let r = load(120, 1, 1000);
    assert_eq!(r.per_page, 100);
    assert_eq!(r.items.len(), 100);
    assert_eq!(r.total_pages, 2);
}

#[test]
fn paginate_starts_from_defaults() {
    let p: Paginated<Vec<i64>> = numbered(3).paginate(2);
    assert_eq!(p.page, 2);
    assert_eq!(p.per_page, 10);
    assert_eq!(p.offset, 10);
}

#[test]
fn from_window_rows_reads_total_off_first_row() {
    let rows: Vec<(i64, i64)> = vec![(10, 7), (20, 7)];
    let r = PaginationResult::from_window_rows(rows, 2, 2);
    assert_eq!(r.items, vec![10, 20]);
    assert_eq!(r.total_items, 7);
    assert_eq!(r.total_pages, 4);
    assert_eq!(r.page, 2);
    assert_eq!(r.per_page, 2);
}

#[test]
fn from_window_rows_empty_means_zero_total() {
    let rows: Vec<(String, i64)> = Vec::new();
    let r = PaginationResult::from_window_rows(rows, 3, 10);
    assert!(r.items.is_empty());
    assert_eq!(r.total_items, 0);
    assert_eq!(r.total_pages, 0);
}

#[test]
fn from_window_rows_negative_total_gives_no_pages() {
    let rows: Vec<(i64, i64)> = vec![(1, -3)];
    let r = PaginationResult::from_window_rows(rows, 1, 10);
    assert_eq!(r.total_items, -3);
    assert_eq!(r.total_pages, 0);
    assert_eq!(r.items, vec![1]);
}

#[test]
fn request_defaults_fill_in() {
    let p = Pagination::from_request(None, None);
    assert_eq!(p.page, 1);
    assert_eq!(p.per_page, 10);
    let p = Pagination::from_request(Some(3), Some(50));
    assert_eq!(p.page, 3);
    assert_eq!(p.per_page, 50);
}
