use linuxbasix::input::{parse_usize, usize_to_decimal};
use linuxbasix::multiselect::{render_select_rows, select_step, sorted_candidates};
use linuxbasix::selection::SelectionSet;

fn items(names: &[&str]) -> Vec<String> {
    names.iter().map(|s| s.to_string()).collect()
}

#[test]
fn numbers_render_without_leading_zeroes() {
    assert_eq!(usize_to_decimal(0), "0");
    assert_eq!(usize_to_decimal(7), "7");
    assert_eq!(usize_to_decimal(10), "10");
    assert_eq!(usize_to_decimal(21), "21");
    assert_eq!(usize_to_decimal(100), "100");
    assert_eq!(usize_to_decimal(90210), "90210");
}

#[test]
fn rendered_numbers_parse_back() {
    for n in [0usize, 1, 9, 10, 99, 100, 4096, usize::MAX] {
        assert_eq!(parse_usize(&usize_to_decimal(n)), Some(n));
    }
}

#[test]
fn list_rows_show_index_marker_and_name_in_sorted_order() {
    let rows = sorted_candidates(&items(&["zip", "curl", "git"]));
    let mut sel = SelectionSet::new();
    let lines = render_select_rows(&rows, &sel);
    assert_eq!(lines, vec!["1 [ ] curl", "2 [ ] git", "3 [ ] zip"]);
    select_step(&rows, &mut sel, "2");
    let lines = render_select_rows(&rows, &sel);
    assert_eq!(lines, vec!["1 [ ] curl", "2 [+] git", "3 [ ] zip"]);
    select_step(&rows, &mut sel, "2");
    let lines = render_select_rows(&rows, &sel);
    assert_eq!(lines, vec!["1 [ ] curl", "2 [ ] git", "3 [ ] zip"]);
}

#[test]
fn two_digit_rows_render_with_their_full_index() {
    let names: Vec<String> = (0..12).map(|k| format!("pkg{:02}", k)).collect();
    let rows = sorted_candidates(&names);
    let sel = SelectionSet::new();
    let lines = render_select_rows(&rows, &sel);
    assert_eq!(lines.len(), 12);
    assert_eq!(lines[9], "10 [ ] pkg09");
    assert_eq!(lines[11], "12 [ ] pkg11");
}
