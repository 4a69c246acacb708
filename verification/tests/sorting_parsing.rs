use linuxbasix::input::parse_usize;
use linuxbasix::multiselect::sorted_candidates;

fn items(names: &[&str]) -> Vec<String> {
    names.iter().map(|s| s.to_string()).collect()
}

#[test]
fn rendered_order_is_the_lexicographic_sort() {
    let sorted = sorted_candidates(&items(&["zip", "curl", "git"]));
    assert_eq!(sorted, items(&["curl", "git", "zip"]));
}

#[test]
fn sorting_does_not_depend_on_the_input_order() {
    let a = sorted_candidates(&items(&["zip", "curl", "git"]));
    let b = sorted_candidates(&items(&["git", "zip", "curl"]));
    let c = sorted_candidates(&items(&["curl", "git", "zip"]));
    assert_eq!(a, b);
    assert_eq!(a, c);
}

#[test]
fn sorting_keeps_duplicates_and_empty_input() {
    let sorted = sorted_candidates(&items(&["b", "a", "b"]));
    assert_eq!(sorted, items(&["a", "b", "b"]));
    let empty = sorted_candidates(&items(&[]));
    assert!(empty.is_empty());
}

#[test]
fn sorting_is_by_code_point() {
    let sorted = sorted_candidates(&items(&["org.gimp.GIMP", "com.spotify.Client", "Zebra", "apt"]));
    assert_eq!(sorted, items(&["Zebra", "apt", "com.spotify.Client", "org.gimp.GIMP"]));
}

#[test]
fn parse_accepts_plain_and_signed_numerals() {
    assert_eq!(parse_usize("5"), Some(5));
    assert_eq!(parse_usize("+7"), Some(7));
    assert_eq!(parse_usize("007"), Some(7));
    assert_eq!(parse_usize("0"), Some(0));
    assert_eq!(parse_usize("20"), Some(20));
}

#[test]
fn parse_rejects_everything_else() {
    assert_eq!(parse_usize(""), None);
    assert_eq!(parse_usize("+"), None);
    assert_eq!(parse_usize("-3"), None);
    assert_eq!(parse_usize("abc"), None);
    assert_eq!(parse_usize("1 2"), None);
    assert_eq!(parse_usize("2x"), None);
    assert_eq!(parse_usize("++2"), None);
}

#[test]
fn parse_handles_the_usize_boundary() {
    let max = usize::MAX;
    assert_eq!(parse_usize(&format!("{}", max)), Some(max));
    assert_eq!(parse_usize("18446744073709551616"), None);
    assert_eq!(parse_usize("99999999999999999999999999"), None);
}
