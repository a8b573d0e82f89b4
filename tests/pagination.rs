use rspotify_sdk::paginate::paginate;
use rspotify_sdk::{CollectionResponse, Failure};
use std::cell::RefCell;

fn numbers_page(items: Vec<u32>, next: Option<&str>) -> CollectionResponse<u32> {
    CollectionResponse {
        href: String::from("https://example.test/items"),
        items,
        limit: 3,
        next: next.map(String::from),
        previous: None,
        offset: 0,
        total: 6,
    }
}

fn numbers_page_for(cursor: &Option<String>) -> Result<CollectionResponse<u32>, Failure> {
    match cursor.as_deref() {
        None => Ok(numbers_page(vec![1, 2], Some("page-2"))),
        Some("page-2") => Ok(numbers_page(vec![3, 4, 5], Some("page-3"))),
        Some("page-3") => Ok(numbers_page(vec![6], None)),
        Some(_) => Err(Failure::FetchFailure),
    }
}

#[test]
fn paginate_returns_every_item_in_order_with_one_call_per_page() {
    let calls: RefCell<Vec<Option<String>>> = RefCell::new(Vec::new());
    let result = paginate(
        |cursor: Option<String>| {
            calls.borrow_mut().push(cursor.clone());
            numbers_page_for(&cursor)
        },
        100,
    );
    assert_eq!(result, Ok(vec![1, 2, 3, 4, 5, 6]));
    assert_eq!(
        calls.into_inner(),
        vec![None, Some(String::from("page-2")), Some(String::from("page-3"))]
    );
}

#[test]
fn paginate_single_page_makes_one_call() {
    let calls = RefCell::new(0u32);
    let result = paginate(
        |_cursor: Option<String>| {
            *calls.borrow_mut() += 1;
            Ok(numbers_page(vec![7, 8, 9], None))
        },
        100,
    );
    assert_eq!(result, Ok(vec![7, 8, 9]));
    assert_eq!(calls.into_inner(), 1);
}

#[test]
fn paginate_empty_collection_yields_no_items() {
    let result = paginate(|_cursor: Option<String>| Ok(numbers_page(vec![], None)), 100);
    assert_eq!(result, Ok(vec![]));
}

#[test]
fn paginate_stops_at_the_first_failed_page() {
    let calls = RefCell::new(0u32);
    let result = paginate(
        |cursor: Option<String>| {
            *calls.borrow_mut() += 1;
            match cursor {
                None => Ok(numbers_page(vec![1, 2], Some("page-2"))),
                Some(_) => Err(Failure::FetchFailure),
            }
        },
        100,
    );
    assert_eq!(result, Err(Failure::FetchFailure));
    assert_eq!(calls.into_inner(), 2);
}

#[test]
fn paginate_fails_closed_on_a_cyclic_cursor() {
    let calls = RefCell::new(0u32);
    let result = paginate(
        |_cursor: Option<String>| {
            *calls.borrow_mut() += 1;
            Ok(numbers_page(vec![1], Some("same-page")))
        },
        5,
    );
    assert_eq!(result, Err(Failure::PageLimitExceeded));
    assert_eq!(calls.into_inner(), 5);
}

#[test]
fn paginate_ceiling_equal_to_page_count_succeeds() {
    let result = paginate(|cursor: Option<String>| numbers_page_for(&cursor), 3);
    assert_eq!(result, Ok(vec![1, 2, 3, 4, 5, 6]));
    let short = paginate(|cursor: Option<String>| numbers_page_for(&cursor), 2);
    assert_eq!(short, Err(Failure::PageLimitExceeded));
}

#[test]
fn paginate_with_zero_ceiling_makes_no_call() {
    let calls = RefCell::new(0u32);
    let result = paginate(
        |_cursor: Option<String>| {
            *calls.borrow_mut() += 1;
            Ok(numbers_page(vec![1], None))
        },
        0,
    );
    assert_eq!(result, Err(Failure::PageLimitExceeded));
    assert_eq!(calls.into_inner(), 0);
}
