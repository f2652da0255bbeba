use omarchy_dock::tray::{best_pixmap, sorted_by_service, split_service, TrayItem};

#[test]
fn a_service_with_a_path_splits_at_the_first_slash() {
    assert_eq!(
        split_service("org.freedesktop.StatusNotifierItem-230825-1/StatusNotifierItem"),
        ("org.freedesktop.StatusNotifierItem-230825-1".into(), "/StatusNotifierItem".into())
    );
    assert_eq!(
        split_service(":1.1262/org/ayatana/NotificationItem/tray_icon"),
        (":1.1262".into(), "/org/ayatana/NotificationItem/tray_icon".into())
    );
}

#[test]
fn a_bare_bus_name_gets_the_conventional_path() {
    assert_eq!(split_service("org.example.Item"), ("org.example.Item".into(), "/StatusNotifierItem".into()));
}

fn item(service: &str, id: &str, title: &str, status: &str) -> TrayItem {
    TrayItem {
        service: service.into(),
        id: id.into(),
        title: title.into(),
        icon_name: String::new(),
        icon_theme_path: String::new(),
        pixmap: None,
        status: status.into(),
    }
}

#[test]
fn the_label_prefers_the_title_but_falls_back_to_the_id() {
    let mut item = item("s", "ChatGPT", "", "Active");
    assert_eq!(item.label(), "ChatGPT");
    item.title = "ChatGPT — 2 unread".into();
    assert_eq!(item.label(), "ChatGPT — 2 unread");
}

#[test]
fn only_needs_attention_counts_as_urgent() {
    assert!(item("s", "x", "", "NeedsAttention").needs_attention());
    assert!(!item("s", "x", "", "Active").needs_attention());
    assert!(!item("s", "x", "", "Passive").needs_attention());
}

#[test]
fn the_largest_complete_pixmap_wins() {
    let small = (16, 16, vec![0u8; 16 * 16 * 4]);
    let big = (32, 32, vec![1u8; 32 * 32 * 4]);
    let got = best_pixmap(vec![small.clone(), big.clone()]).unwrap();
    assert_eq!(got.0, 32);
    // Equally large: the last one.
    let other = (32, 32, vec![2u8; 32 * 32 * 4]);
    assert_eq!(best_pixmap(vec![big.clone(), other.clone()]).unwrap().2[0], 2);
    // A truncated largest pixmap is dropped rather than read past its end.
    let truncated = (64, 64, vec![0u8; 10]);
    assert!(best_pixmap(vec![small, truncated]).is_none());
    assert!(best_pixmap(vec![]).is_none());
    assert!(best_pixmap(vec![(0, 5, vec![])]).is_none());
}

#[test]
fn items_are_shown_in_service_order() {
    let v = sorted_by_service(vec![item("b", "1", "", ""), item(":1.2", "2", "", ""), item("a", "3", "", "")]);
    let ids: Vec<&str> = v.iter().map(|i| i.id.as_str()).collect();
    assert_eq!(ids, ["2", "3", "1"]);
}

#[test]
fn the_order_does_not_depend_on_how_items_arrive() {
    let items = [item("b", "1", "", ""), item(":1.2", "2", "", ""), item("a", "3", "", ""), item("a/x", "4", "", "")];
    let forwards: Vec<String> = sorted_by_service(items.to_vec()).iter().map(|i| i.id.clone()).collect();
    let mut reversed = items.to_vec();
    reversed.reverse();
    let backwards: Vec<String> = sorted_by_service(reversed).iter().map(|i| i.id.clone()).collect();
    assert_eq!(forwards, backwards);
    assert_eq!(forwards, ["2", "3", "4", "1"]);
}
