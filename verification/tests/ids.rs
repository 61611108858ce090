use overnvr::model::source_list;
use overnvr::oid::ObjectId;
use overnvr::text::{decimal, holds, join2, join3, same, split};

#[test]
fn written_form_reads_back() {
    let id = ObjectId { high: 0x0123_4567_89ab_cdef, low: 0xfedc_ba98 };
    assert_eq!(id.to_hex(), "0123456789abcdeffedcba98");
    assert_eq!(ObjectId::from_str("0123456789abcdeffedcba98"), Some(id));
    assert_eq!(ObjectId::from_str("0123456789ABCDEFFEDCBA98"), Some(id));
}

#[test]
fn zero_and_largest_identifiers() {
    let zero = ObjectId { high: 0, low: 0 };
    assert_eq!(zero.to_hex(), "000000000000000000000000");
    let largest = ObjectId { high: u64::MAX, low: u32::MAX };
    assert_eq!(largest.to_hex(), "ffffffffffffffffffffffff");
    assert_eq!(ObjectId::from_str("ffffffffffffffffffffffff"), Some(largest));
}

#[test]
fn other_texts_are_no_identifiers() {
    assert_eq!(ObjectId::from_str(""), None);
    assert_eq!(ObjectId::from_str("0123456789abcdeffedcba9"), None);
    assert_eq!(ObjectId::from_str("0123456789abcdeffedcba988"), None);
    assert_eq!(ObjectId::from_str("0123456789abcdeffedcba9g"), None);
    assert_eq!(ObjectId::from_str("0123456789abcdeffedcba9\u{e9}"), None);
    assert_eq!(ObjectId::from_str(" 123456789abcdeffedcba98"), None);
}

#[test]
fn list_of_identifiers() {
    let one = "000000000000000000000001";
    let two = "000000000000000000000002";
    let list = source_list(&format!("{},{}", one, two)).unwrap();
    assert_eq!(list.len(), 2);
    assert_eq!(list[0], ObjectId { high: 0, low: 1 });
    assert_eq!(list[1], ObjectId { high: 0, low: 2 });
    assert_eq!(source_list(one).unwrap().len(), 1);
    assert!(source_list("").is_none());
    assert!(source_list(&format!("{},", one)).is_none());
    assert!(source_list(&format!("{}, {}", one, two)).is_none());
}

#[test]
fn split_gives_one_more_piece_than_separators() {
    assert_eq!(split("", ','), vec![""]);
    assert_eq!(split("a", ','), vec!["a"]);
    assert_eq!(split(",", ','), vec!["", ""]);
    assert_eq!(split("a,bc,,d", ','), vec!["a", "bc", "", "d"]);
    assert_eq!(split("\u{e4},\u{fc}", ','), vec!["\u{e4}", "\u{fc}"]);
    assert_eq!(split("a,bc,,d", ',').join(","), "a,bc,,d");
}

#[test]
fn texts_are_joined_and_compared() {
    assert_eq!(join2("ab", "cd"), "abcd");
    assert_eq!(join3("a", "", "b"), "ab");
    assert!(same("a", "a"));
    assert!(!same("a", "A"));
    let names = vec!["car".to_string(), "person".to_string()];
    assert!(holds(&names, &"person".to_string()));
    assert!(!holds(&names, &"dog".to_string()));
}

#[test]
fn numbers_in_decimal() {
    assert_eq!(decimal(0), "0");
    assert_eq!(decimal(9), "9");
    assert_eq!(decimal(10), "10");
    assert_eq!(decimal(1234567890), "1234567890");
    assert_eq!(decimal(u128::MAX), u128::MAX.to_string());
}

#[test]
fn a_written_list_reads_back() {
    let ids = vec![
        ObjectId { high: 1, low: 2 },
        ObjectId { high: u64::MAX, low: 0 },
        ObjectId { high: 1, low: 2 },
    ];
    let text = ids.iter().map(|id| id.to_hex()).collect::<Vec<_>>().join(",");
    assert_eq!(source_list(&text), Some(ids));
}
