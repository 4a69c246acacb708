use linuxbasix::menu::main_menu_step;
use linuxbasix::menu::MenuCommand;
use linuxbasix::menu::MAIN_MENU_ITEMS;

#[test]
fn w_wraps_from_top_to_bottom() {
    let (h, cmd) = main_menu_step(1, "w");
    assert_eq!(h, MAIN_MENU_ITEMS);
    assert_eq!(cmd, MenuCommand::Moved);
}

#[test]
fn s_wraps_from_bottom_to_top() {
    let (h, cmd) = main_menu_step(MAIN_MENU_ITEMS, "s");
    assert_eq!(h, 1);
    assert_eq!(cmd, MenuCommand::Moved);
}

#[test]
fn highlight_stays_in_range_under_any_moves() {
    let mut h: usize = 1;
    let moves = ["s", "s", "w", "w", "w", "s", "w", "w", "s", "s", "s", "s", "s", "s", "s", "s"];
    for m in moves.iter() {
        let (nh, cmd) = main_menu_step(h, m);
        assert_eq!(cmd, MenuCommand::Moved);
        h = nh;
        assert!(1 <= h && h <= MAIN_MENU_ITEMS);
    }
}

#[test]
fn three_down_then_four_up_traces_through_the_wrap() {
    let mut h: usize = 1;
    for expected in [2usize, 3, 4] {
        let (nh, _) = main_menu_step(h, "s");
        h = nh;
        assert_eq!(h, expected);
    }
    for expected in [3usize, 2, 1, 9] {
        let (nh, _) = main_menu_step(h, "w");
        h = nh;
        assert_eq!(h, expected);
    }
}

#[test]
fn quit_keys_quit() {
    assert_eq!(main_menu_step(4, "q"), (4, MenuCommand::Quit));
    assert_eq!(main_menu_step(4, "Q"), (4, MenuCommand::Quit));
}

#[test]
fn empty_line_dispatches_by_row() {
    assert_eq!(main_menu_step(1, ""), (1, MenuCommand::OpenApt));
    assert_eq!(main_menu_step(3, ""), (3, MenuCommand::OpenFlatpak));
    assert_eq!(main_menu_step(7, ""), (7, MenuCommand::OpenManagers));
    assert_eq!(main_menu_step(9, ""), (9, MenuCommand::Quit));
    assert_eq!(main_menu_step(2, ""), (2, MenuCommand::NotImplemented));
    assert_eq!(main_menu_step(5, ""), (5, MenuCommand::NotImplemented));
    assert_eq!(main_menu_step(8, ""), (8, MenuCommand::NotImplemented));
}

#[test]
fn invalid_input_on_main_menu_changes_nothing() {
    let state = linuxbasix::menu::ProgramState::new();
    let (h, cmd) = main_menu_step(5, "abc");
    assert_eq!(h, 5);
    assert_eq!(cmd, MenuCommand::Invalid);
    assert_eq!(state.selected_apt_programs.len(), 0);
    assert_eq!(state.selected_flatpak_programs.len(), 0);
    assert!(state.selected_package_manager.is_none());
    let lines_before = linuxbasix::menu::display_main_menu(5);
    let lines_after = linuxbasix::menu::display_main_menu(h);
    assert_eq!(lines_before, lines_after);
}

#[test]
fn rendered_menu_marks_only_the_highlighted_row() {
    let lines = linuxbasix::menu::display_main_menu(1);
    assert_eq!(lines.len(), 9);
    assert_eq!(lines[0], "> 1. Select original repo packages");
    assert_eq!(lines[1], "  2. Install original repo packages");
    assert_eq!(lines[8], "  9. Exit (or press 'Q')");
    let lines7 = linuxbasix::menu::display_main_menu(7);
    assert_eq!(lines7[6], "> 7. Select package manager");
    assert_eq!(lines7[0], "  1. Select original repo packages");
}
