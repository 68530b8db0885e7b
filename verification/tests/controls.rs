use deathloop_invader_tool::controls::{menu_actions, tray_tip, Controls, MenuAction};

#[test]
fn settings_parse() {
    let mut c = Controls {
        name: true,
        day: true,
        network: true,
        health: true,
        distance: true,
    };
    c.parse("name=0\nday=1\nnetwork=0\nhealth=oops\ndistance=0\n");
    assert!(!c.name && c.day && !c.network && c.health && !c.distance);
}

#[test]
fn settings_text_reads_back() {
    let c = Controls {
        name: false,
        day: true,
        network: false,
        health: true,
        distance: false,
    };
    let text = c.settings_text();
    assert_eq!(text, "name=0\nday=1\nnetwork=0\nhealth=1\ndistance=0\n");
    let mut d = Controls::new();
    d.parse(&text);
    assert_eq!(d, c);
}

#[test]
fn parse_trims_and_ignores_unknown_lines() {
    let mut c = Controls::new();
    c.parse("  name =  0 \r\n# comment\nunknown=0\nday\nnetwork=1=0\r\n");
    assert_eq!(
        c,
        Controls {
            name: false,
            day: true,
            network: true,
            health: true,
            distance: true
        }
    );
}

#[test]
fn shortcut_keys_toggle_groups() {
    let mut c = Controls::new();
    assert!(c.key_toggle(1));
    assert!(!c.name);
    assert!(c.key_toggle(2));
    assert!(c.key_toggle(3));
    assert!(!c.any_visible());
    assert!(!c.key_toggle(4));
    assert!(!c.key_toggle(5));
    assert!(!c.key_toggle(9));
    assert!(c.health && c.distance);
    assert!(c.key_toggle(1));
    assert!(c.name);
}

#[test]
fn menu_commands() {
    let mut c = Controls::new();
    assert_eq!(c.menu_command(6), MenuAction::Changed);
    assert!(!c.name && !c.day && !c.network && !c.health && !c.distance);
    assert_eq!(c.menu_command(7), MenuAction::Changed);
    assert!(c.name && c.day && c.network && c.health && c.distance);
    assert_eq!(c.menu_command(4), MenuAction::Changed);
    assert!(!c.health);
    assert_eq!(c.menu_command(8), MenuAction::Exit);
    assert_eq!(c.menu_command(0), MenuAction::Ignored);
    assert_eq!(c.menu_entries()[2], (3, "Network statistics", true));
    assert_eq!(c.menu_entries().len(), 3);
    assert_eq!(menu_actions()[0], (6, "Hide all"));
    assert_eq!(tray_tip(), "Deathloop name/network overlay - right-click controls");
}
