use gg18::api::signers::{distinct, read_signers, signer_from};

fn texts(list: &[&str]) -> Vec<String> {
    list.iter().map(|text| text.to_string()).collect()
}

#[test]
fn signer_place_is_its_index_less_one() {
    assert_eq!(signer_from(Some(1), 3), Some(0));
    assert_eq!(signer_from(Some(3), 3), Some(2));
    assert_eq!(signer_from(Some(65535), 65535), Some(65534));
}

#[test]
fn index_out_of_range_is_no_signer() {
    assert_eq!(signer_from(Some(0), 3), None);
    assert_eq!(signer_from(Some(4), 3), None);
    assert_eq!(signer_from(Some(u64::MAX), 65535), None);
    assert_eq!(signer_from(Some(1), 0), None);
    assert_eq!(signer_from(None, 3), None);
}

#[test]
fn announced_indices_are_read_as_json_numbers() {
    assert_eq!(read_signers(&texts(&["1", "3", "2"]), 3), Ok(vec![0, 2, 1]));
    assert_eq!(read_signers(&texts(&[" 2 "]), 3), Ok(vec![1]));
    assert_eq!(read_signers(&texts(&[]), 3), Ok(Vec::new()));
}

#[test]
fn first_unreadable_announcement_is_named() {
    assert_eq!(read_signers(&texts(&["1", "two", "x"]), 3), Err(1));
    assert_eq!(read_signers(&texts(&["", "2"]), 3), Err(0));
    assert_eq!(read_signers(&texts(&["1", "2", "\"3\""]), 3), Err(2));
    assert_eq!(read_signers(&texts(&["-1"]), 3), Err(0));
    assert_eq!(read_signers(&texts(&["1.5"]), 3), Err(0));
}

#[test]
fn announced_index_beyond_the_shares_is_named() {
    assert_eq!(read_signers(&texts(&["1", "4"]), 3), Err(1));
    assert_eq!(read_signers(&texts(&["0"]), 3), Err(0));
}

#[test]
fn distinct_tells_whether_a_number_occurs_twice() {
    assert!(distinct(&Vec::new()));
    assert!(distinct(&vec![5]));
    assert!(distinct(&vec![0, 2, 1]));
    assert!(!distinct(&vec![0, 2, 0]));
    assert!(!distinct(&vec![1, 1]));
    assert!(!distinct(&vec![3, 4, 5, 6, 6]));
}
