use rspotify_sdk::batch::{batch_fetch, MAX_IDS_PER_REQUEST};
use rspotify_sdk::Failure;
use std::cell::RefCell;

fn numbered_keys(n: u32) -> Vec<String> {
    (0..n).map(|i| format!("id{}", i)).collect()
}

#[test]
fn batch_250_keys_in_chunks_of_100() {
    let keys = numbered_keys(250);
    let sizes: RefCell<Vec<usize>> = RefCell::new(Vec::new());
    let result = batch_fetch(&keys, 100, |chunk: &[String]| {
        sizes.borrow_mut().push(chunk.len());
        Ok(chunk.iter().map(|k| format!("record-{}", k)).collect())
    });
    assert_eq!(sizes.into_inner(), vec![100, 100, 50]);
    let expected: Vec<String> = keys.iter().map(|k| format!("record-{}", k)).collect();
    assert_eq!(result, Ok(expected));
}

#[test]
fn batch_chunks_are_consecutive_keys() {
    let keys = numbered_keys(7);
    let chunks: RefCell<Vec<Vec<String>>> = RefCell::new(Vec::new());
    let result = batch_fetch(&keys, 3, |chunk: &[String]| {
        chunks.borrow_mut().push(chunk.to_vec());
        Ok(chunk.to_vec())
    });
    assert_eq!(result, Ok(keys.clone()));
    assert_eq!(
        chunks.into_inner(),
        vec![keys[0..3].to_vec(), keys[3..6].to_vec(), keys[6..7].to_vec()]
    );
}

#[test]
fn batch_empty_keys_makes_no_call() {
    let keys: Vec<String> = Vec::new();
    let calls = RefCell::new(0u32);
    let result = batch_fetch(&keys, MAX_IDS_PER_REQUEST, |chunk: &[String]| {
        *calls.borrow_mut() += 1;
        Ok(chunk.to_vec())
    });
    assert_eq!(result, Ok(Vec::<String>::new()));
    assert_eq!(calls.into_inner(), 0);
}

#[test]
fn batch_exact_multiple_has_no_short_chunk() {
    let keys = numbered_keys(200);
    let sizes: RefCell<Vec<usize>> = RefCell::new(Vec::new());
    let result = batch_fetch(&keys, 100, |chunk: &[String]| {
        sizes.borrow_mut().push(chunk.len());
        Ok(vec![chunk.len()])
    });
    assert_eq!(result, Ok(vec![100, 100]));
    assert_eq!(sizes.into_inner(), vec![100, 100]);
}

#[test]
fn batch_keeps_duplicate_keys() {
    let keys = vec![String::from("a"), String::from("a"), String::from("b")];
    let result = batch_fetch(&keys, 2, |chunk: &[String]| Ok(chunk.to_vec()));
    assert_eq!(result, Ok(keys.clone()));
}

#[test]
fn batch_failure_discards_earlier_records() {
    let keys = numbered_keys(250);
    let calls = RefCell::new(0u32);
    let result: Result<Vec<String>, Failure> = batch_fetch(&keys, 100, |chunk: &[String]| {
        *calls.borrow_mut() += 1;
        if *calls.borrow() == 2 {
            Err(Failure::FetchFailure)
        } else {
            Ok(chunk.to_vec())
        }
    });
    assert_eq!(result, Err(Failure::FetchFailure));
    assert_eq!(calls.into_inner(), 2);
}
