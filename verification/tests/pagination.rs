use pythia::types::pagination::{Pagination, PaginationResult};

#[test]
fn pagination_test() {
    let vec = vec![1, 2, 3, 4, 5, 6, 7, 8, 9, 10, 11, 12, 13, 14, 15, 16];

    let pagination = Pagination { page: 1, size: 5 };
    let res = pagination.paginate(vec.clone());

    assert_eq!(res.page, 1);
    assert_eq!(res.size, 5);
    assert_eq!(res.total_items, 16);
    assert_eq!(res.total_pages, 4);
    assert_eq!(vec[0..5], res.items[..]);

    let pagination = Pagination { page: 4, size: 5 };
    let res = pagination.paginate(vec.clone());

    assert_eq!(res.page, 4);
    assert_eq!(res.size, 5);
    assert_eq!(res.total_items, 16);
    assert_eq!(res.total_pages, 4);
    assert_eq!(vec[15..16], res.items[..]);

    let pagination = Pagination { page: 10, size: 5 };
    let res = pagination.paginate(vec.clone());

    assert_eq!(res.page, 10);
    assert_eq!(res.size, 5);
    assert_eq!(res.total_items, 16);
    assert_eq!(res.total_pages, 4);
    assert!(res.items.is_empty());

    let pagination = Pagination { page: 2, size: 1 };
    let res = pagination.paginate(vec.clone());

    assert_eq!(res.page, 2);
    assert_eq!(res.size, 1);
    assert_eq!(res.total_items, 16);
    assert_eq!(res.total_pages, 16);
    assert_eq!(vec[1..2], res.items);
}

#[test]
fn pagination_of_empty_list_has_no_pages() {
    let res = Pagination { page: 1, size: 3 }.paginate(Vec::<u8>::new());
    assert_eq!(res.total_items, 0);
    assert_eq!(res.total_pages, 0);
    assert!(res.items.is_empty());
}

#[test]
fn pagination_last_page_is_partial() {
    let data: Vec<u32> = (0..10).collect();
    let res = Pagination { page: 4, size: 3 }.paginate(data);
    assert_eq!(res.total_pages, 4);
    assert_eq!(res.items, vec![9]);
}

#[test]
fn pagination_pages_cover_the_list() {
    let data: Vec<u32> = (0..23).collect();
    let mut all = Vec::new();
    let total = Pagination { page: 1, size: 4 }.paginate(data.clone()).total_pages;
    for page in 1..=total {
        let res = Pagination { page, size: 4 }.paginate(data.clone());
        assert!(!res.items.is_empty() && res.items.len() <= 4);
        all.extend(res.items);
    }
    assert_eq!(all, data);
    assert!(Pagination { page: total + 1, size: 4 }.paginate(data).items.is_empty());
}

#[test]
fn whole_list_as_one_page() {
    let res = PaginationResult::from(vec!['a', 'b', 'c']);
    assert_eq!(res.page, 1);
    assert_eq!(res.size, 3);
    assert_eq!(res.total_items, 3);
    assert_eq!(res.total_pages, 1);
    assert_eq!(res.items, vec!['a', 'b', 'c']);
}
