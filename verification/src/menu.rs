//! The main menu: a highlighted-row cursor over a fixed table of rows, the
//! step it takes on one trimmed input line, the rendered menu lines, the
//! hardcoded package catalogs, and the program state both screens share.

use vstd::prelude::*;
use vstd::string::StringExecFns;

use crate::input::digit_char;
use crate::input::digit_str;
use crate::input::eq_char;
use crate::input::is_empty_line;
use crate::order::names_of;
use crate::selection::SelectionSet;

verus! {

/// Number of rows in the main menu.
pub const MAIN_MENU_ITEMS: usize = 9;

/// What the main menu asks its caller to do after one line of input.
#[derive(Clone, Copy, Debug, PartialEq, Eq, Structural)]
pub enum MenuCommand {
    /// End the session.
    Quit,
    /// The cursor moved; just render again.
    Moved,
    /// Open the multi-select list on the native package catalog.
    OpenApt,
    /// Open the multi-select list on the Flatpak catalog.
    OpenFlatpak,
    /// Open the multi-select list on the detected package managers.
    OpenManagers,
    /// A row whose action is not implemented; report and continue.
    NotImplemented,
    /// Malformed input; report and continue.
    Invalid,
}

/// The cursor moved one row up, wrapping from the top to the bottom.
pub open spec fn wrap_dec(h: int) -> int {
    if h > 1 {
        h - 1
    } else {
        MAIN_MENU_ITEMS as int
    }
}

/// The cursor moved one row down, wrapping from the bottom to the top.
pub open spec fn wrap_inc(h: int) -> int {
    if h < MAIN_MENU_ITEMS as int {
        h + 1
    } else {
        1
    }
}

/// The action bound to confirming the highlighted row.
pub open spec fn dispatch(h: int) -> MenuCommand {
    if h == 1 {
        MenuCommand::OpenApt
    } else if h == 3 {
        MenuCommand::OpenFlatpak
    } else if h == 7 {
        MenuCommand::OpenManagers
    } else if h == 9 {
        MenuCommand::Quit
    } else {
        MenuCommand::NotImplemented
    }
}

/// One step of the main menu on a trimmed input line: `q`/`Q` quits, `w` and
/// `s` move the cursor with wrap-around, an empty line confirms the
/// highlighted row, and anything else is invalid and changes nothing.
pub open spec fn menu_transition(h: int, input: Seq<char>) -> (int, MenuCommand) {
    if input == seq!['q'] || input == seq!['Q'] {
        (h, MenuCommand::Quit)
    } else if input == seq!['w'] {
        (wrap_dec(h), MenuCommand::Moved)
    } else if input == seq!['s'] {
        (wrap_inc(h), MenuCommand::Moved)
    } else if input.len() == 0 {
        (h, dispatch(h))
    } else {
        (h, MenuCommand::Invalid)
    }
}

/// Applies one trimmed input line to the cursor, exactly as `menu_transition`
/// says; the cursor stays in range.
pub fn main_menu_step(highlight: usize, input: &str) -> (r: (usize, MenuCommand))
    requires
        1 <= highlight <= MAIN_MENU_ITEMS,
    ensures
        r.0 as int == menu_transition(highlight as int, input@).0,
        r.1 == menu_transition(highlight as int, input@).1,
        1 <= r.0 <= MAIN_MENU_ITEMS,
{
    if eq_char(input, 'q') || eq_char(input, 'Q') {
        (highlight, MenuCommand::Quit)
    } else if eq_char(input, 'w') {
        let nh: usize = if highlight > 1 {
            highlight - 1
        } else {
            MAIN_MENU_ITEMS
        };
        (nh, MenuCommand::Moved)
    } else if eq_char(input, 's') {
        let nh: usize = if highlight < MAIN_MENU_ITEMS {
            highlight + 1
        } else {
            1
        };
        (nh, MenuCommand::Moved)
    } else if is_empty_line(input) {
        let cmd = if highlight == 1 {
            MenuCommand::OpenApt
        } else if highlight == 3 {
            MenuCommand::OpenFlatpak
        } else if highlight == 7 {
            MenuCommand::OpenManagers
        } else if highlight == 9 {
            MenuCommand::Quit
        } else {
            MenuCommand::NotImplemented
        };
        (highlight, cmd)
    } else {
        (highlight, MenuCommand::Invalid)
    }
}

/// The cursor after a whole sequence of input lines.
pub open spec fn nav_after(h: int, inputs: Seq<Seq<char>>) -> int
    decreases inputs.len(),
{
    if inputs.len() == 0 {
        h
    } else {
        nav_after(menu_transition(h, inputs[0]).0, inputs.drop_first())
    }
}

/// Law: from a cursor in range, every sequence of input lines — `w` and `s`
/// moves included — leaves the cursor in range.
pub proof fn lemma_highlight_in_range(h: int, inputs: Seq<Seq<char>>)
    requires
        1 <= h <= MAIN_MENU_ITEMS as int,
    ensures
        1 <= nav_after(h, inputs) <= MAIN_MENU_ITEMS as int,
    decreases inputs.len(),
{
    if inputs.len() > 0 {
        lemma_highlight_in_range(menu_transition(h, inputs[0]).0, inputs.drop_first());
    }
}

/// Law: the cursor wraps at both ends: `w` on the first row moves to the last
/// row, and `s` on the last row moves to the first.
pub proof fn lemma_wrap_ends()
    ensures
        menu_transition(1, seq!['w']).0 == MAIN_MENU_ITEMS as int,
        menu_transition(MAIN_MENU_ITEMS as int, seq!['s']).0 == 1,
{
    assert(seq!['w'][0] == 'w' && seq!['q'][0] == 'q' && seq!['Q'][0] == 'Q' && seq!['s'][0]
        == 's');
    assert(seq!['w'] != seq!['q'] && seq!['w'] != seq!['Q']);
    assert(seq!['s'] != seq!['q'] && seq!['s'] != seq!['Q'] && seq!['s'] != seq!['w']);
}

/// The nine row titles of the main menu, in row order.
pub open spec fn menu_option_names() -> Seq<Seq<char>> {
    seq![
        "Select original repo packages"@,
        "Install original repo packages"@,
        "Select Flatpak packages"@,
        "Install Flatpak packages"@,
        "Install 1Password (via AgileBit repo)"@,
        "Install additional fonts"@,
        "Select package manager"@,
        "Copy configs from Github repo to HOME"@,
        "Exit (or press 'Q')"@,
    ]
}

/// The main menu's row titles as owned strings.
pub fn main_menu_options() -> (r: Vec<String>)
    ensures
        names_of(r@) == menu_option_names(),
        r@.len() == MAIN_MENU_ITEMS,
{
    let mut v: Vec<String> = Vec::new();
    v.push("Select original repo packages".to_owned());
    v.push("Install original repo packages".to_owned());
    v.push("Select Flatpak packages".to_owned());
    v.push("Install Flatpak packages".to_owned());
    v.push("Install 1Password (via AgileBit repo)".to_owned());
    v.push("Install additional fonts".to_owned());
    v.push("Select package manager".to_owned());
    v.push("Copy configs from Github repo to HOME".to_owned());
    v.push("Exit (or press 'Q')".to_owned());
    proof {
        assert(names_of(v@) =~= menu_option_names());
    }
    v
}

/// The hardcoded catalog of native packages offered on row 1.
pub open spec fn apt_catalog_names() -> Seq<Seq<char>> {
    seq![
        "curl"@,
        "git"@,
        "neovim"@,
        "htop"@,
        "neofetch"@,
        "tilix"@,
        "gdu"@,
        "nala"@,
        "mc"@,
        "zip"@,
        "unzip"@,
        "fortune-mod"@,
        "build-essential"@,
        "flatpak"@,
        "preload"@,
        "cmatrix"@,
        "cool-retro-term"@,
        "powertop"@,
        "upx-ucl"@,
        "code"@,
    ]
}

/// The native package catalog as owned strings.
pub fn apt_catalog() -> (r: Vec<String>)
    ensures
        names_of(r@) == apt_catalog_names(),
{
    let mut v: Vec<String> = Vec::new();
    v.push("curl".to_owned());
    v.push("git".to_owned());
    v.push("neovim".to_owned());
    v.push("htop".to_owned());
    v.push("neofetch".to_owned());
    v.push("tilix".to_owned());
    v.push("gdu".to_owned());
    v.push("nala".to_owned());
    v.push("mc".to_owned());
    v.push("zip".to_owned());
    v.push("unzip".to_owned());
    v.push("fortune-mod".to_owned());
    v.push("build-essential".to_owned());
    v.push("flatpak".to_owned());
    v.push("preload".to_owned());
    v.push("cmatrix".to_owned());
    v.push("cool-retro-term".to_owned());
    v.push("powertop".to_owned());
    v.push("upx-ucl".to_owned());
    v.push("code".to_owned());
    proof {
        assert(names_of(v@) =~= apt_catalog_names());
    }
    v
}

/// The hardcoded catalog of Flatpak packages offered on row 3.
pub open spec fn flatpak_catalog_names() -> Seq<Seq<char>> {
    seq![
        "com.spotify.Client"@,
        "org.videolan.VLC"@,
        "com.github.tchx84.Flatseal"@,
        "com.discordapp.Discord"@,
        "com.ktechpit.colorwall"@,
        "com.mattjakeman.ExtensionManager"@,
        "com.microsoft.Edge"@,
        "com.valvesoftware.Steam"@,
        "net.cozic.joplin_desktop"@,
        "net.lutris.Lutris"@,
        "org.DolphinEmu.dolphin-emu"@,
        "org.duckstation.DuckStation"@,
        "org.libretro.RetroArch"@,
        "org.mozilla.Thunderbird"@,
        "net.sf.VICE"@,
        "net.fsuae.FS-UAE"@,
        "org.audacityteam.Audacity"@,
        "org.gimp.GIMP"@,
        "org.gnome.Boxes"@,
        "com.transmissionbt.Transmission"@,
        "fr.handbrake.ghb"@,
    ]
}

/// The Flatpak package catalog as owned strings.
pub fn flatpak_catalog() -> (r: Vec<String>)
    ensures
        names_of(r@) == flatpak_catalog_names(),
{
    let mut v: Vec<String> = Vec::new();
    v.push("com.spotify.Client".to_owned());
    v.push("org.videolan.VLC".to_owned());
    v.push("com.github.tchx84.Flatseal".to_owned());
    v.push("com.discordapp.Discord".to_owned());
    v.push("com.ktechpit.colorwall".to_owned());
    v.push("com.mattjakeman.ExtensionManager".to_owned());
    v.push("com.microsoft.Edge".to_owned());
    v.push("com.valvesoftware.Steam".to_owned());
    v.push("net.cozic.joplin_desktop".to_owned());
    v.push("net.lutris.Lutris".to_owned());
    v.push("org.DolphinEmu.dolphin-emu".to_owned());
    v.push("org.duckstation.DuckStation".to_owned());
    v.push("org.libretro.RetroArch".to_owned());
    v.push("org.mozilla.Thunderbird".to_owned());
    v.push("net.sf.VICE".to_owned());
    v.push("net.fsuae.FS-UAE".to_owned());
    v.push("org.audacityteam.Audacity".to_owned());
    v.push("org.gimp.GIMP".to_owned());
    v.push("org.gnome.Boxes".to_owned());
    v.push("com.transmissionbt.Transmission".to_owned());
    v.push("fr.handbrake.ghb".to_owned());
    proof {
        assert(names_of(v@) =~= flatpak_catalog_names());
    }
    v
}

/// The marker put before a row: a cursor on the highlighted row, blanks
/// elsewhere.
pub open spec fn marker(highlighted: bool) -> Seq<char> {
    if highlighted {
        "> "@
    } else {
        "  "@
    }
}

/// The full text of one rendered menu row: marker, row number, title.
pub open spec fn menu_line(h: int, i: int) -> Seq<char> {
    marker(i == h) + seq![digit_char(i)] + ". "@ + menu_option_names()[i - 1]
}

/// The nine rendered menu rows for a given cursor: each row carries its
/// marker, its one-based number, and its title.
pub fn display_main_menu(highlight: usize) -> (lines: Vec<String>)
    requires
        1 <= highlight <= MAIN_MENU_ITEMS,
    ensures
        lines@.len() == MAIN_MENU_ITEMS,
        forall|i: int|
            1 <= i <= MAIN_MENU_ITEMS ==> lines@[i - 1]@ == menu_line(highlight as int, i),
{
    let opts = main_menu_options();
    let mut lines: Vec<String> = Vec::new();
    let mut i: usize = 1;
    while i <= MAIN_MENU_ITEMS
        invariant
            1 <= i <= MAIN_MENU_ITEMS + 1,
            1 <= highlight <= MAIN_MENU_ITEMS,
            opts@.len() == MAIN_MENU_ITEMS,
            names_of(opts@) == menu_option_names(),
            lines@.len() == i - 1,
            forall|j: int| 1 <= j < i ==> lines@[j - 1]@ == menu_line(highlight as int, j),
        decreases MAIN_MENU_ITEMS + 1 - i,
    {
        let mut line: String = if i == highlight {
            "> ".to_owned()
        } else {
            "  ".to_owned()
        };
        line.append(digit_str(i));
        line.append(". ");
        line.append(opts[i - 1].as_str());
        proof {
            assert(names_of(opts@)[i - 1] == opts@[i - 1]@);
            assert(line@ =~= menu_line(highlight as int, i as int));
        }
        lines.push(line);
        i = i + 1;
    }
    lines
}

/// The process-lifetime state both screens mutate: the two package selections
/// and the at-most-one chosen package manager.
pub struct ProgramState {
    pub selected_apt_programs: SelectionSet,
    pub selected_flatpak_programs: SelectionSet,
    pub selected_package_manager: Option<String>,
}

impl ProgramState {
    /// Both selections are stored without duplicates.
    pub open spec fn wf(&self) -> bool {
        self.selected_apt_programs.wf() && self.selected_flatpak_programs.wf()
    }

    /// The state at startup: nothing selected, no package manager chosen.
    pub fn new() -> (s: ProgramState)
        ensures
            s.wf(),
            s.selected_apt_programs@ == Set::<Seq<char>>::empty(),
            s.selected_flatpak_programs@ == Set::<Seq<char>>::empty(),
            s.selected_package_manager is None,
    {
        ProgramState {
            selected_apt_programs: SelectionSet::new(),
            selected_flatpak_programs: SelectionSet::new(),
            selected_package_manager: None,
        }
    }
}

} // verus!
