use basalt::icons::icon_index;

#[test]
fn icon_lookup_by_name() {
    assert!(icon_index("tag").is_some());
    assert!(icon_index("nonexistent_icon").is_none());
}

#[test]
fn icon_table_is_sorted_and_positions_follow_it() {
    let a = icon_index("account_circle").unwrap();
    let s = icon_index("settings").unwrap();
    let v = icon_index("volume_up").unwrap();
    assert_eq!(a, 0);
    assert!(a < s && s < v);
    assert!(icon_index("Tag").is_none());
}
