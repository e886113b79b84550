use blogbot::blog::{plan_position, BlogError};
use blogbot::channel::{find_category, find_owned, siblings_of, Channel};
use blogbot::order::{name_le, str_eq};
use blogbot::planner::{slot_position, sort_by_name, Slot};

fn chan(id: u64, name: &str, parent: Option<u64>, topic: Option<&str>, position: u16) -> Channel {
    Channel {
        id,
        name: name.to_string(),
        parent_id: parent,
        topic: topic.map(|t| t.to_string()),
        position,
    }
}

#[test]
fn name_order_is_case_sensitive() {
    assert!(name_le("Alice", "Bob"));
    assert!(!name_le("Bob", "Alice"));
    // Upper-case code points sort before lower-case ones.
    assert!(name_le("Bob", "alice"));
    assert!(name_le("Al", "Alice"));
    assert!(!name_le("Alice", "Al"));
    assert!(name_le("Alice", "Alice"));
}

#[test]
fn marker_is_the_decimal_form() {
    assert_eq!(blogbot::channel::marker_of(0), "0");
    assert_eq!(blogbot::channel::marker_of(7), "7");
    assert_eq!(blogbot::channel::marker_of(102), "102");
    assert_eq!(blogbot::channel::marker_of(1000), "1000");
    assert_eq!(
        blogbot::channel::marker_of(u64::MAX),
        "18446744073709551615"
    );
}

#[test]
fn string_equality() {
    assert!(str_eq("blog", "blog"));
    assert!(!str_eq("blog", "blag"));
    assert!(!str_eq("blog", "blogs"));
    assert!(str_eq("", ""));
}

#[test]
fn sort_orders_by_display_name() {
    let group = vec![
        chan(1, "Charlie", Some(9), None, 0),
        chan(2, "alice", Some(9), None, 1),
        chan(3, "Bob", Some(9), None, 2),
    ];
    let sorted = sort_by_name(&group);
    let names: Vec<&str> = sorted.iter().map(|c| c.name.as_str()).collect();
    assert_eq!(names, vec!["Bob", "Charlie", "alice"]);
}

#[test]
fn slot_of_target_after_predecessor() {
    // Alphabetical order Alice, Bob, Charlie: Bob adopts the position
    // Alice held before the walk.
    let sorted = vec![
        chan(2, "Alice", Some(1), Some("100"), 0),
        chan(4, "Bob", Some(1), Some("102"), 2),
        chan(3, "Charlie", Some(1), Some("101"), 1),
    ];
    assert_eq!(slot_position(&sorted, &"102".to_string()), Slot::After(0));
}

#[test]
fn slot_of_target_that_sorts_first() {
    let sorted = vec![
        chan(2, "Alice", Some(1), Some("100"), 3),
        chan(3, "Charlie", Some(1), Some("101"), 1),
    ];
    // No position change: the target keeps its own current position.
    assert_eq!(slot_position(&sorted, &"100".to_string()), Slot::First(3));
}

#[test]
fn slot_without_owned_channel() {
    let sorted = vec![chan(2, "Alice", Some(1), Some("100"), 0)];
    assert_eq!(slot_position(&sorted, &"999".to_string()), Slot::Absent);
}

#[test]
fn plan_position_for_fresh_channel() {
    // The guild right after Bob's channel was created at the end of the
    // category: Alice at 0, Charlie at 1, Bob at 2.
    let channels = vec![
        chan(1, "Blogs", None, None, 0),
        chan(2, "Alice", Some(1), Some("100"), 0),
        chan(3, "Charlie", Some(1), Some("101"), 1),
        chan(4, "Bob", Some(1), Some("102"), 2),
        chan(5, "general", None, None, 0),
    ];
    // Bob slots in after Alice and takes Alice's former position 0; the
    // platform's reordering shifts Alice and Charlie down.
    assert_eq!(
        plan_position(&channels, 1, &"102".to_string()).unwrap(),
        Slot::After(0)
    );
}

#[test]
fn plan_position_rejects_empty_group() {
    let channels = vec![chan(1, "Blogs", None, None, 0)];
    let err = plan_position(&channels, 1, &"100".to_string()).unwrap_err();
    assert_eq!(err, BlogError::EmptySiblingGroup);
    assert!(err.is_fatal());
}

#[test]
fn plan_position_after_rename() {
    // Bob renamed his channel to "Zed": it now sorts last and adopts
    // Charlie's former position.
    let channels = vec![
        chan(1, "Blogs", None, None, 0),
        chan(2, "Alice", Some(1), Some("100"), 0),
        chan(3, "Charlie", Some(1), Some("101"), 2),
        chan(4, "Zed", Some(1), Some("102"), 1),
    ];
    assert_eq!(
        plan_position(&channels, 1, &"102".to_string()).unwrap(),
        Slot::After(2)
    );
}

#[test]
fn find_owned_returns_first_match() {
    let channels = vec![
        chan(1, "Blogs", None, None, 0),
        chan(2, "Alice", Some(1), Some("100"), 0),
        chan(3, "Dup", Some(1), Some("100"), 1),
    ];
    assert_eq!(find_owned(&channels, &"100".to_string()), Some(1));
    assert_eq!(find_owned(&channels, &"999".to_string()), None);
}

#[test]
fn find_category_by_name() {
    let channels = vec![
        chan(5, "general", None, None, 0),
        chan(1, "Blogs", None, None, 1),
    ];
    assert_eq!(find_category(&channels), Some(1));
    assert_eq!(find_category(&vec![chan(5, "general", None, None, 0)]), None);
}

#[test]
fn siblings_keep_only_category_children() {
    let channels = vec![
        chan(1, "Blogs", None, None, 0),
        chan(2, "Alice", Some(1), Some("100"), 0),
        chan(5, "general", Some(7), None, 0),
        chan(3, "Charlie", Some(1), None, 1),
    ];
    let group = siblings_of(&channels, 1);
    let ids: Vec<u64> = group.iter().map(|c| c.id).collect();
    assert_eq!(ids, vec![2, 3]);
}
