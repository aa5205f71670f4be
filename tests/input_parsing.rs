use leader_election::input::parse_ids;
use leader_election::ring::ids_distinct;
use leader_election::role::NodeState;

#[test]
fn parses_space_separated_ids() {
    assert_eq!(parse_ids(b"5 1 4 2 3"), Some(vec![5, 1, 4, 2, 3]));
    assert_eq!(parse_ids(b"7\n"), Some(vec![7]));
    assert_eq!(parse_ids(b"  1\t3  2 \r\n"), Some(vec![1, 3, 2]));
}

#[test]
fn empty_line_has_no_ids() {
    assert_eq!(parse_ids(b""), Some(vec![]));
    assert_eq!(parse_ids(b"   \n"), Some(vec![]));
}

#[test]
fn rejects_words_that_are_not_numbers() {
    assert_eq!(parse_ids(b"1 x 3"), None);
    assert_eq!(parse_ids(b"12a"), None);
    assert_eq!(parse_ids(b"-4"), None);
}

#[test]
fn accepts_largest_id_and_rejects_overflow() {
    assert_eq!(parse_ids(b"18446744073709551615"), Some(vec![u64::MAX]));
    assert_eq!(parse_ids(b"18446744073709551616"), None);
    assert_eq!(parse_ids(b"1 99999999999999999999 2"), None);
}

#[test]
fn detects_repeated_ids() {
    assert!(ids_distinct(&vec![5, 1, 4, 2, 3]));
    assert!(ids_distinct(&vec![7]));
    assert!(!ids_distinct(&vec![1, 2, 1]));
}

#[test]
fn settled_roles() {
    assert!(NodeState::Leader.is_settled());
    assert!(NodeState::Defeated { leader: Some(3) }.is_settled());
    assert!(!NodeState::Defeated { leader: None }.is_settled());
    assert!(!NodeState::initial().is_settled());
}
