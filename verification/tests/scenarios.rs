use linuxbasix::managers::check_package_managers;
use linuxbasix::managers::manager_candidates;
use linuxbasix::menu::apt_catalog;
use linuxbasix::menu::flatpak_catalog;
use linuxbasix::menu::main_menu_options;
use linuxbasix::multiselect::row_markers;
use linuxbasix::multiselect::select_step;
use linuxbasix::multiselect::sorted_candidates;
use linuxbasix::multiselect::SelectOutcome;
use linuxbasix::selection::SelectionSet;

fn one_based_index(list: &[String], name: &str) -> usize {
    list.iter().position(|s| s == name).unwrap() + 1
}

#[test]
fn selecting_curl_and_git_from_the_apt_screen() {
    let catalog = apt_catalog();
    let rows = sorted_candidates(&catalog);
    let mut sel = SelectionSet::new();
    let curl_row = one_based_index(&rows, "curl");
    let git_row = one_based_index(&rows, "git");
    assert_eq!(select_step(&rows, &mut sel, &format!("{}", curl_row)), SelectOutcome::Toggled);
    assert_eq!(select_step(&rows, &mut sel, &format!("{}", git_row)), SelectOutcome::Toggled);
    assert_eq!(select_step(&rows, &mut sel, "q"), SelectOutcome::Quit);
    assert_eq!(sel.len(), 2);
    assert!(sel.contains(&"curl".to_string()));
    assert!(sel.contains(&"git".to_string()));
}

#[test]
fn manager_screen_prechecks_the_current_choice() {
    let current = Some("apt".to_string());
    let available = items(&["apt", "dnf"]);
    let rows = sorted_candidates(&available);
    let sel = SelectionSet::seeded(&current);
    let markers = row_markers(&rows, &sel);
    assert_eq!(markers.len(), 2);
    assert_eq!(markers[one_based_index(&rows, "apt") - 1], true);
    assert_eq!(markers[one_based_index(&rows, "dnf") - 1], false);
}

#[test]
fn manager_screen_collapses_to_at_most_one_choice() {
    let available = items(&["apt", "dnf", "snap"]);
    let rows = sorted_candidates(&available);
    let mut sel = SelectionSet::seeded(&None);
    let dnf_row = one_based_index(&rows, "dnf");
    let snap_row = one_based_index(&rows, "snap");
    select_step(&rows, &mut sel, &format!("{}", snap_row));
    select_step(&rows, &mut sel, &format!("{}", dnf_row));
    select_step(&rows, &mut sel, "q");
    let chosen = sel.first_in(&available);
    assert_eq!(chosen, Some("dnf".to_string()));
}

#[test]
fn deselecting_the_current_manager_leaves_none() {
    let available = items(&["apt", "dnf"]);
    let rows = sorted_candidates(&available);
    let mut sel = SelectionSet::seeded(&Some("apt".to_string()));
    let apt_row = one_based_index(&rows, "apt");
    select_step(&rows, &mut sel, &format!("{}", apt_row));
    assert_eq!(sel.first_in(&available), None);
}

#[test]
fn detected_managers_keep_the_probe_order() {
    let candidates = manager_candidates();
    assert_eq!(candidates, items(&["apt", "pacman", "yum", "dnf", "zypper", "snap"]));
    let present = vec![true, false, false, true, false, true];
    let detected = check_package_managers(&candidates, &present);
    assert_eq!(detected, items(&["apt", "dnf", "snap"]));
    let none = check_package_managers(&candidates, &vec![false; 6]);
    assert!(none.is_empty());
    let all = check_package_managers(&candidates, &vec![true; 6]);
    assert_eq!(all, candidates);
}

#[test]
fn the_catalogs_hold_the_advertised_entries() {
    let apt = apt_catalog();
    assert_eq!(apt.len(), 20);
    assert_eq!(apt[0], "curl");
    assert_eq!(apt[19], "code");
    let flatpak = flatpak_catalog();
    assert_eq!(flatpak.len(), 21);
    assert_eq!(flatpak[0], "com.spotify.Client");
    assert_eq!(flatpak[20], "fr.handbrake.ghb");
    let options = main_menu_options();
    assert_eq!(options.len(), 9);
    assert_eq!(options[6], "Select package manager");
}

#[test]
fn markers_follow_every_toggle() {
    let rows = items(&["a", "b", "c"]);
    let mut sel = SelectionSet::new();
    select_step(&rows, &mut sel, "2");
    let markers = row_markers(&rows, &sel);
    assert_eq!(markers, vec![false, true, false]);
    select_step(&rows, &mut sel, "2");
    let markers = row_markers(&rows, &sel);
    assert_eq!(markers, vec![false, false, false]);
}

fn items(names: &[&str]) -> Vec<String> {
    names.iter().map(|s| s.to_string()).collect()
}

#[test]
fn a_whole_session_applies_toggles_until_quit() {
    let catalog = apt_catalog();
    let rows = sorted_candidates(&catalog);
    let mut sel = SelectionSet::new();
    let inputs = vec![
        format!("{}", one_based_index(&rows, "curl")),
        "abc".to_string(),
        "0".to_string(),
        "999".to_string(),
        format!("{}", one_based_index(&rows, "git")),
        "q".to_string(),
        format!("{}", one_based_index(&rows, "zip")),
    ];
    linuxbasix::multiselect::select_session(&rows, &mut sel, &inputs);
    assert_eq!(sel.len(), 2);
    assert!(sel.contains(&"curl".to_string()));
    assert!(sel.contains(&"git".to_string()));
    assert!(!sel.contains(&"zip".to_string()));
}
