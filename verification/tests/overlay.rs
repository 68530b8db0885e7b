use deathloop_invader_tool::controls::Controls;
use deathloop_invader_tool::game::{OpponentSnapshot, Role};
use deathloop_invader_tool::keyboard::Keyboard;
use deathloop_invader_tool::overlay::{
    after_update, apply_coverage_alpha, apply_keys, coverage_alpha, detached_frame, frame_plan,
    game_text, needs_repaint, shows_game_info, with_hint, FramePlan, Reattach, DETACHED_TEXT,
};
use deathloop_invader_tool::network::{Monitor, PeerSample};

fn snapshot(role: Role, name: Option<&str>, day: Option<i32>) -> Result<OpponentSnapshot, String> {
    Ok(OpponentSnapshot {
        role,
        name: name.map(String::from),
        player_count: 2,
        host_day: day,
    })
}

#[test]
fn identity_and_network_lines() {
    let c = Controls::new();
    let net = String::from("Ping: 40 ms");
    assert_eq!(
        game_text(&c, &snapshot(Role::Invader, Some("Colt"), Some(219)), Some(&net), None),
        "Host: Colt | Day 219\nPing: 40 ms"
    );
    assert_eq!(
        game_text(&c, &snapshot(Role::Host, None, None), None, None),
        "Invader: waiting for opponent"
    );
    let no_name = Controls { name: false, ..c };
    assert_eq!(
        game_text(&no_name, &snapshot(Role::Invader, Some("Colt"), Some(5)), None, None),
        "Day 5"
    );
    assert_eq!(
        game_text(&c, &Err("Session changing".into()), Some(&net), None),
        "Waiting for game session\nPing: 40 ms"
    );
    let only_net = Controls { name: false, day: false, ..c };
    assert_eq!(game_text(&only_net, &Err("x".into()), Some(&net), None), "Ping: 40 ms");
    let no_net = Controls { network: false, ..c };
    assert_eq!(
        game_text(&no_net, &snapshot(Role::Host, Some("Juli"), None), Some(&net), None),
        "Invader: Juli"
    );
}

#[test]
fn hint_is_appended_unless_hidden() {
    let mut k = Keyboard::new(0);
    assert_eq!(
        with_hint("A".into(), &k, 5),
        "A\nCtrl+Alt+F7: shortcuts | Ctrl+Alt+F12: close"
    );
    assert_eq!(
        with_hint(String::new(), &k, 5),
        "Ctrl+Alt+F7: shortcuts | Ctrl+Alt+F12: close"
    );
    assert_eq!(with_hint("A".into(), &k, 20_000_000_000), "A");
    k.hidden = true;
    assert_eq!(with_hint("A".into(), &k, 5), "A");
    assert!(!shows_game_info(&Controls::new(), &k));
    k.hidden = false;
    assert!(shows_game_info(&Controls::new(), &k));
}

#[test]
fn coverage_becomes_alpha() {
    assert_eq!(coverage_alpha(0x0000_0000), 0x0000_0000);
    assert_eq!(coverage_alpha(0x0012_3456), 0x5612_3456);
    assert_eq!(coverage_alpha(0xFF80_1020), 0x8080_1020);
    let mut px = vec![0x00FF_FFFF, 0x0000_0010];
    apply_coverage_alpha(&mut px);
    assert_eq!(px, vec![0xFFFF_FFFF, 0x1000_0010]);
}

#[test]
fn keys_toggle_and_close_stops_handling() {
    let mut k = Keyboard::new(0);
    let mut c = Controls::new();
    let e = apply_keys(&vec![6, 1], &mut k, &mut c);
    assert!(!e.close && e.changed && e.save);
    assert!(k.hidden && !c.name);
    let e = apply_keys(&vec![7, 12, 2], &mut k, &mut c);
    assert!(e.close && !e.save);
    assert!(k.help && c.day);
    let e = apply_keys(&vec![], &mut k, &mut c);
    assert!(!e.close && !e.changed && !e.save);
}

#[test]
fn reattach_every_two_seconds() {
    let mut r = Reattach::new(10);
    assert!(r.due(10));
    assert!(!r.due(11));
    assert!(r.due(2_000_000_010));
    r.lost(5);
    assert!(r.due(5));
}

#[test]
fn frame_plan_chooses_blank_detached_or_game() {
    let c = Controls::new();
    let mut k = Keyboard::new(0);
    assert_eq!(frame_plan(&c, &k, true), FramePlan::Game { network: true, extra: false });
    assert_eq!(frame_plan(&c, &k, false), FramePlan::Detached);
    let quiet = Controls { network: false, ..c };
    assert_eq!(frame_plan(&quiet, &k, true), FramePlan::Game { network: false, extra: false });
    let none = Controls { name: false, day: false, network: false, ..c };
    assert_eq!(frame_plan(&none, &k, true), FramePlan::Blank);
    assert_eq!(frame_plan(&none, &k, false), FramePlan::Blank);
    k.toggle_hidden();
    assert_eq!(frame_plan(&c, &k, true), FramePlan::Blank);
    assert_eq!(frame_plan(&c, &k, false), FramePlan::Blank);
}

#[test]
fn repaint_only_on_a_changed_text() {
    let mut last: Option<String> = None;
    assert!(needs_repaint(&last, &"Host: Colt".to_string()));
    after_update(&mut last, "Host: Colt".to_string(), false);
    assert_eq!(last, None);
    after_update(&mut last, "Host: Colt".to_string(), true);
    assert_eq!(last.as_deref(), Some("Host: Colt"));
    assert!(!needs_repaint(&last, &"Host: Colt".to_string()));
    assert!(needs_repaint(&last, &"Host: Colt | Day 3".to_string()));
    assert!(needs_repaint(&last, &"Host: Cols".to_string()));
    assert!(needs_repaint(&last, &String::new()));
}

#[test]
fn a_detached_frame_resets_the_network_histories() {
    let mut m = Monitor::new();
    let s = PeerSample { key: (1, 2, 3, 4), tx: 0, rx: 0, packets: 0, ping: Some(30), reply: 1 };
    assert_eq!(m.accept(s, 5).ping, Some(30));
    assert_eq!(detached_frame(&mut m), DETACHED_TEXT);
    assert_eq!(m.accept(PeerSample { ping: None, ..s }, 6).ping, None);
}
