use matter_clusters::bounded::{octet_length, List, Text};

#[test]
fn a_full_list_takes_no_more() {
    let mut list: List<u16, 3> = List::new();
    assert!(list.is_empty());
    assert!(list.push(5));
    assert!(list.push(6));
    assert!(list.push(7));
    assert!(list.is_full());
    assert!(!list.push(8));
    assert_eq!(list.as_slice(), [5, 6, 7]);
    assert_eq!(list.len(), 3);
    assert_eq!(*list.get(1), 6);
}

#[test]
fn taking_one_out_moves_the_others_up() {
    let mut list: List<u16, 4> = List::new();
    for v in [5, 6, 7, 8] {
        assert!(list.push(v));
    }
    assert_eq!(list.remove(1), 6);
    assert_eq!(list.as_slice(), [5, 7, 8]);
    list.set(1, 9);
    assert_eq!(list.as_slice(), [5, 9, 8]);
    let other = list.copy();
    assert_eq!(list.take(), [5, 9, 8]);
    assert!(list.is_empty());
    assert_eq!(other.as_slice(), [5, 9, 8]);
    let mut other = other;
    other.clear();
    assert_eq!(other.len(), 0);
}

#[test]
fn the_newest_push_the_oldest_out() {
    let mut list: List<u16, 2> = List::new();
    for v in [1, 2, 3, 4] {
        list.push_newest(v);
    }
    assert_eq!(list.as_slice(), [3, 4]);
}

#[test]
fn a_text_is_measured_in_octets() {
    assert_eq!(octet_length("h\u{e9}"), 3);
    assert_eq!(Text::<3>::copy_of("h\u{e9}").expect("fits").as_str(), "h\u{e9}");
    assert!(Text::<2>::copy_of("h\u{e9}").is_none());
    assert_eq!(Text::<2>::new().as_str(), "");
}
