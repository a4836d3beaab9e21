use pt_collector::storage::local_storage::LocalPhotoStorage;
use pt_collector::{Photo, SaveError};

fn photo(bytes: Option<Vec<u8>>) -> Photo {
    Photo { original_url: String::from("u"), tags: vec![String::from("t")], bytes }
}

#[test]
fn storage_starts_at_one() {
    let storage = LocalPhotoStorage::new(&String::from("tmp"));
    assert_eq!(storage.dir, "tmp");
    assert_eq!(storage.next_seq, 1);
}

#[test]
fn sequential_saves_are_numbered_from_one() {
    let mut storage = LocalPhotoStorage::new(&String::from("out/dir"));
    let names: Vec<String> = (0..3)
        .map(|_| storage.claim_destination(&photo(Some(vec![1, 2]))).unwrap())
        .collect();
    assert_eq!(names, vec!["out/dir/1.jpg", "out/dir/2.jpg", "out/dir/3.jpg"]);
}

#[test]
fn save_without_bytes_fails_and_uses_a_number() {
    let mut storage = LocalPhotoStorage::new(&String::from("d"));
    assert_eq!(storage.claim_destination(&photo(None)), Err(SaveError::NoBytes));
    assert_eq!(storage.next_seq, 2);
    assert_eq!(storage.claim_destination(&photo(Some(vec![9]))), Ok(String::from("d/2.jpg")));
}

#[test]
fn exhausted_sequence_is_reported() {
    let mut storage = LocalPhotoStorage::new(&String::from("d"));
    storage.next_seq = u64::MAX;
    assert_eq!(
        storage.claim_destination(&photo(Some(vec![1]))),
        Err(SaveError::SequenceExhausted)
    );
    assert_eq!(storage.next_seq, u64::MAX);
}

#[test]
fn large_sequence_numbers_are_written_in_full() {
    let mut storage = LocalPhotoStorage::new(&String::from("d"));
    storage.next_seq = 1234567;
    assert_eq!(storage.claim_destination(&photo(Some(vec![1]))), Ok(String::from("d/1234567.jpg")));
}
