use statusbar::format::{display_string, icon_index, parse_usize};
use statusbar::text::{chars_of, replace_all};

fn icons(list: &[&str]) -> Vec<String> {
    list.iter().map(|s| s.to_string()).collect()
}

#[test]
fn icon_bucket_of_full_value_is_last() {
    assert_eq!(icon_index(100, 4), 3);
}

#[test]
fn icon_bucket_of_zero_is_first() {
    assert_eq!(icon_index(0, 4), 0);
}

#[test]
fn icon_bucket_low_boundary_is_inclusive() {
    assert_eq!(icon_index(25, 4), 1);
    assert_eq!(icon_index(24, 4), 0);
    assert_eq!(icon_index(49, 4), 1);
    assert_eq!(icon_index(50, 4), 2);
}

#[test]
fn icon_bucket_uneven_widths_keep_formula() {
    // 100 / 3 == 33: buckets [0,33), [33,66), [66,..] clamped to 2
    assert_eq!(icon_index(32, 3), 0);
    assert_eq!(icon_index(33, 3), 1);
    assert_eq!(icon_index(99, 3), 2);
    assert_eq!(icon_index(100, 3), 2);
    // 100 / 11 == 9: value 100 gives 11, clamped to 10
    assert_eq!(icon_index(100, 11), 10);
}

#[test]
fn icon_bucket_single_icon() {
    assert_eq!(icon_index(0, 1), 0);
    assert_eq!(icon_index(100, 1), 0);
    assert_eq!(icon_index(1000, 1), 0);
}

#[test]
fn parse_reads_plain_and_plus_numbers() {
    assert_eq!(parse_usize(&"42".chars().collect()), Some(42));
    assert_eq!(parse_usize(&"+7".chars().collect()), Some(7));
    assert_eq!(parse_usize(&"007".chars().collect()), Some(7));
}

#[test]
fn parse_rejects_non_numbers() {
    assert_eq!(parse_usize(&"".chars().collect()), None);
    assert_eq!(parse_usize(&"+".chars().collect()), None);
    assert_eq!(parse_usize(&"4a".chars().collect()), None);
    assert_eq!(parse_usize(&"-3".chars().collect()), None);
    assert_eq!(parse_usize(&"N/A".chars().collect()), None);
    assert_eq!(parse_usize(&"99999999999999999999999".chars().collect()), None);
}

#[test]
fn display_fills_value_and_icon() {
    let t = display_string("%c %s%", "100", &icons(&["a", "b", "c", "d"]));
    assert_eq!(t, "d 100%");
    let t = display_string("%c %s%", "30", &icons(&["a", "b", "c", "d"]));
    assert_eq!(t, "b 30%");
}

#[test]
fn display_without_number_drops_icon() {
    let t = display_string("%c %s%", "N/A", &icons(&["a", "b"]));
    assert_eq!(t, " N/A%");
}

#[test]
fn display_without_icons_drops_icon_mark() {
    let t = display_string("cpu %s%c!", "12", &Vec::new());
    assert_eq!(t, "cpu 12!");
}

#[test]
fn display_replaces_every_value_mark() {
    let t = display_string("%s/%s", "x", &Vec::new());
    assert_eq!(t, "x/x");
}

#[test]
fn display_value_with_marks_is_not_rescanned_for_value() {
    // the value is put in first, so a `%c` inside it is filled with the icon
    let t = display_string("[%s]", "%c", &icons(&["i"]));
    assert_eq!(t, "[]");
}

#[test]
fn replace_all_is_left_to_right_without_overlap() {
    let s = chars_of("aaa");
    let r = replace_all(&s, &chars_of("aa"), &chars_of("b"));
    assert_eq!(r.iter().collect::<String>(), "ba");
}

#[test]
fn icon_bucket_of_long_table_has_width_one() {
    assert_eq!(icon_index(100, 101), 100);
    assert_eq!(icon_index(150, 101), 100);
    assert_eq!(icon_index(5, 200), 5);
}
