use bozz_torio::editor::component_ui::texture_label;
use bozz_torio::editor::docking::{Dock, Layout, Pane};
use bozz_torio::editor::export::{candidate_folder, folder_name, platform_label};
use bozz_torio::editor::files::{accepts, Kind};
use bozz_torio::editor::gameplay_input::GameplayControls;
use bozz_torio::steam_net::parse_lobby_connect;

#[test]
fn invite_payload_accepts_only_one_numeric_lobby_id() {
    assert_eq!(parse_lobby_connect("+connect_lobby 123"), Some(123));
    for bad in [
        "+connect_lobby 0",
        "+connect_lobby nope",
        "+connect_lobby 123 --scene other",
        "other 123",
    ] {
        assert_eq!(parse_lobby_connect(bad), None);
    }
}

#[test]
fn invite_payload_follows_whitespace_and_number_rules() {
    assert_eq!(parse_lobby_connect("  +connect_lobby\t+42\n"), Some(42));
    assert_eq!(parse_lobby_connect("+connect_lobby 007"), Some(7));
    assert_eq!(parse_lobby_connect("+connect_lobby 18446744073709551615"), Some(u64::MAX));
    assert_eq!(parse_lobby_connect("+connect_lobby 18446744073709551616"), None);
    assert_eq!(parse_lobby_connect("+connect_lobby -1"), None);
    assert_eq!(parse_lobby_connect("+connect_lobby +"), None);
    assert_eq!(parse_lobby_connect("+connect_lobby"), None);
    assert_eq!(parse_lobby_connect(""), None);
    assert_eq!(parse_lobby_connect("+connect_lobby\u{3000}9"), Some(9));
}

#[test]
fn output_names_stay_inside_the_chosen_folder() {
    for (name, expected) in [
        ("First Trail", "First Trail"),
        ("../My:Game?", "My-Game"),
        ("...", "Game"),
        ("CON", "Game - CON"),
        ("LPT9.txt", "Game - LPT9.txt"),
        ("  Café  ", "Café"),
    ] {
        assert_eq!(folder_name(name), expected);
    }
}

#[test]
fn folder_names_cover_reserved_devices_and_controls() {
    assert_eq!(folder_name("com1"), "Game - com1");
    assert_eq!(folder_name("COM0"), "COM0");
    assert_eq!(folder_name("nul.tar.gz"), "Game - nul.tar.gz");
    assert_eq!(folder_name("a\u{7}b"), "a-b");
    assert_eq!(folder_name(""), "Game");
    assert_eq!(folder_name("Comet"), "Comet");
}

#[test]
fn dialogs_filter_files_by_kind() {
    assert!(accepts(Kind::Import, "/tmp/art/Tree.PNG"));
    assert!(accepts(Kind::Import, "hero.prefab.json"));
    assert!(accepts(Kind::Import, "stone.material.json"));
    assert!(!accepts(Kind::Import, "notes.txt"));
    assert!(accepts(Kind::LoadBlueprint, "spin.blueprint.json"));
    assert!(!accepts(Kind::SaveBlueprint, "spin.json"));
    assert!(accepts(Kind::LoadShaderGraph, "glow.shadergraph.json"));
    assert!(accepts(Kind::Open, "scene.json"));
    assert!(!accepts(Kind::Open, "scene.json.bak"));
    assert!(!accepts(Kind::Save, ".json"));
}

#[test]
fn texture_labels_and_dock_titles() {
    assert_eq!(texture_label("toon"), "Toon (3 bands)");
    assert_eq!(texture_label("white"), "White / no map");
    assert_eq!(texture_label("custom"), "custom");
    assert_eq!(Dock::LeftLower.title(), "Left bottom");
    assert_eq!(Dock::Floating.title(), "Floating window");
    assert_eq!(Dock::ALL.len(), 6);
}

#[test]
fn a_held_key_acts_once_per_press() {
    let mut controls = GameplayControls::default();
    assert!(controls.hold(1 << 3, true, false));
    assert!(!controls.hold(1 << 3, true, false));
    assert!(!controls.hold(1 << 3, true, true));
    assert!(!controls.hold(1 << 3, false, false));
    assert!(controls.hold(1 << 3, true, false));
    assert!(!controls.hold(1 << 4, true, true));
    controls.mark_focus_discontinuity();
    controls.reset();
    assert!(!controls.hold(1 << 3, true, false));
}

#[test]
fn moving_detaching_restoring_and_resetting_never_duplicate_or_lose_panes() {
    let mut layout = Layout::default();
    layout.move_pane(Pane::Inspector, Dock::Right);
    layout.move_pane(Pane::Assets, Dock::Floating);
    assert_eq!(layout.location(Pane::Inspector), Dock::Right);
    assert_eq!(layout.location(Pane::Assets), Dock::Floating);
    let mut counts = [0; 6];
    for pane in layout.frame([true; 6]) {
        counts[pane as usize] += 1;
    }
    assert!(counts.iter().all(|n| *n <= 1));
    assert_eq!(counts[Pane::Assets as usize], 1);
    assert_eq!(counts[Pane::Inspector as usize], 1);
    layout.reset();
    let home = Layout::default();
    for pane in [
        Pane::Scene,
        Pane::Hierarchy,
        Pane::Inspector,
        Pane::Assets,
        Pane::Settings,
        Pane::Debug,
    ] {
        assert_eq!(layout.location(pane), home.location(pane));
        assert_eq!(layout.location(pane), pane.home());
    }
    assert_eq!(layout.generation(), 1);
}

#[test]
fn tab_groups_show_their_selection_or_first_pane() {
    let mut layout = Layout::default();
    // Home layout: left, left lower, bottom (Content first), right, centre.
    let drawn = layout.frame([true; 6]);
    assert_eq!(
        drawn,
        vec![Pane::Hierarchy, Pane::Inspector, Pane::Assets, Pane::Settings, Pane::Scene]
    );
    layout.focus(Pane::Debug);
    assert_eq!(layout.selected(Dock::Bottom), Some(Pane::Debug));
    // A hidden selection falls back to the group's first visible pane.
    let drawn = layout.frame([true, true, true, true, true, false]);
    assert_eq!(drawn[2], Pane::Assets);
    assert_eq!(layout.selected(Dock::Bottom), Some(Pane::Assets));
    // Nothing visible in the centre: it shows nothing and forgets its selection.
    let drawn = layout.frame([false, true, true, true, true, true]);
    assert!(!drawn.contains(&Pane::Scene));
    assert_eq!(layout.selected(Dock::Center), None);
    // A floating pane gets its window; closing the window docks it home and in front.
    layout.move_pane(Pane::Settings, Dock::Floating);
    let drawn = layout.frame([true; 6]);
    assert_eq!(drawn.last(), Some(&Pane::Settings));
    assert_eq!(layout.selected(Dock::Right), Some(Pane::Settings));
    layout.close_window(Pane::Settings);
    assert_eq!(layout.location(Pane::Settings), Dock::Right);
    assert_eq!(Pane::Assets.title(), "Content");
}

#[test]
fn repeated_exports_number_their_folders() {
    assert_eq!(candidate_folder("First Trail", 1).as_deref(), Some("First Trail"));
    assert_eq!(candidate_folder("First Trail", 2).as_deref(), Some("First Trail (2)"));
    assert_eq!(candidate_folder("First Trail", 3).as_deref(), Some("First Trail (3)"));
    assert_eq!(candidate_folder("../My:Game?", 2).as_deref(), Some("My-Game (2)"));
    assert_eq!(candidate_folder("CON", 10_000).as_deref(), Some("Game - CON (10000)"));
    assert_eq!(candidate_folder("First Trail", 10_001), None);
    assert_eq!(candidate_folder("First Trail", 0), None);
}

#[test]
fn platform_names_read_like_products() {
    assert_eq!(platform_label("macos", "aarch64", true), "macOS · Apple Silicon");
    assert_eq!(platform_label("linux", "aarch64", false), "Linux · ARM64");
    assert_eq!(platform_label("windows", "x86_64", false), "Windows · x64");
    assert_eq!(platform_label("freebsd", "riscv64", false), "freebsd · riscv64");
}

#[test]
fn file_dialogs_ask_once_before_replacing() {
    assert_eq!(Kind::Save.title(), Some("Save scene as"));
    assert_eq!(Kind::Import.title(), Some("Import image, model or prefab"));
    assert_eq!(Kind::Export.title(), None);
    assert_eq!(Kind::NewProject.title(), None);
    assert!(!Kind::Save.confirm(true, false));
    assert!(Kind::Save.confirm(true, true));
    assert!(Kind::Save.confirm(false, false));
    assert!(!Kind::SaveShaderGraph.confirm(true, false));
    assert!(Kind::Open.confirm(true, false));
}

#[test]
fn the_announced_launch_option_reads_back_as_its_lobby() {
    for id in [1u64, 9, 10, 109_775_241_021_440_001, u64::MAX] {
        assert_eq!(parse_lobby_connect(&format!("+connect_lobby {id}")), Some(id));
    }
    assert_eq!(parse_lobby_connect("+connect_lobby 0"), None);
}

#[test]
fn folder_names_are_safe_and_naming_them_again_keeps_them() {
    for name in ["First Trail", "../My:Game?", "...", "CON", "LPT9.txt", " -a\u{7}b. ", "", "aux"] {
        let folder = folder_name(name);
        assert!(!folder.is_empty());
        assert!(!folder.chars().any(|c| c.is_control() || "<>:\"/\\|?*".contains(c)));
        for edge in [' ', '.', '-'] {
            assert!(!folder.starts_with(edge) && !folder.ends_with(edge));
        }
        assert_eq!(folder_name(&folder), folder);
    }
}
