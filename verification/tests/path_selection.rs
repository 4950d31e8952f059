use yule_log::path_filter::{select_entries, sorted_unique_paths, str_less};

fn strings(v: &[&str]) -> Vec<String> {
    v.iter().map(|s| s.to_string()).collect()
}

#[test]
fn paths_are_taken_once_in_order() {
    let sorted = sorted_unique_paths(&strings(&["b", "a/x", "a", "b", "a/x"]));
    assert_eq!(sorted, strings(&["a", "a/x", "b"]));
    assert!(str_less("a", "a/x"));
    assert!(str_less("Z", "a"));
    assert!(!str_less("b", "b"));
    assert!(str_less("", "a"));
}

#[test]
fn series_and_fields_are_selected() {
    let keys = strings(&["vehicle_attitude", "battery_status", "esc_status"]);
    let data = vec![
        strings(&["/q.00", "/q.01", "/rollspeed"]),
        strings(&["/voltage_v", "/current_a"]),
        strings(&["/esc_count"]),
    ];
    let kept = select_entries(&keys, &data, &strings(&["vehicle_attitude/rollspeed", "battery_status"]));
    assert_eq!(kept, vec![(0, vec![2]), (1, vec![0, 1])]);
    // A field that no data path matches keeps nothing, and the series goes.
    let none = select_entries(&keys, &data, &strings(&["esc_status/missing"]));
    assert_eq!(none, vec![]);
    // No path: nothing stays.
    assert_eq!(select_entries(&keys, &data, &vec![]), vec![]);
}

#[test]
fn a_whole_subscription_replaces_what_earlier_paths_picked() {
    let keys = strings(&["a"]);
    let data = vec![strings(&["/x", "/y"])];
    // "a" comes before "a/x": all data, then `/x` once more.
    assert_eq!(select_entries(&keys, &data, &strings(&["a/x", "a"])), vec![(0, vec![0, 1, 0])]);
    // Field paths compare from the first `/` on.
    let nested = vec![strings(&["/h.00/id", "/h.00"])];
    assert_eq!(select_entries(&keys, &nested, &strings(&["a/h.00/id"])), vec![(0, vec![0])]);
}
