use deathloop_invader_tool::keyboard::{key_mask, Keyboard};

#[test]
fn held_key_toggles_once() {
    let mut k = Keyboard::new(0);
    assert_eq!(k.edges(1), vec![1]);
    assert!(k.edges(1).is_empty());
    assert!(k.edges(0).is_empty());
    assert_eq!(k.edges(1 << 11), vec![12]);
}

#[test]
fn several_new_keys_are_reported_in_order() {
    let mut k = Keyboard::new(0);
    assert_eq!(k.edges(0b101), vec![1, 3]);
    assert_eq!(k.edges(0b111), vec![2]);
    assert!(k.edges(0b1_0000_0000_0000).is_empty());
}

#[test]
fn hint_shows_guide_or_startup_hint() {
    let mut k = Keyboard::new(1_000);
    assert_eq!(
        k.hint(1_000),
        Some("Ctrl+Alt+F7: shortcuts | Ctrl+Alt+F12: close")
    );
    assert_eq!(k.hint(1_000 + 10_000_000_000), None);
    k.help = true;
    assert_eq!(
        k.hint(1_000 + 10_000_000_000),
        Some("Ctrl+Alt: F1 Name | F2 Day | F3 Network\nF6 Hide/show | F7 Help | F12 Close overlay")
    );
}

#[test]
fn refresh_is_due_on_keys_or_after_the_interval() {
    let mut k = Keyboard::new(0);
    assert!(k.refresh_due(false, 0));
    assert_eq!(k.next_refresh, 250_000_000);
    assert!(!k.refresh_due(false, 100));
    assert!(k.refresh_due(true, 100));
    assert_eq!(k.next_refresh, 250_000_100);
}

#[test]
fn key_mask_needs_the_chord() {
    let mut keys = [false; 12];
    keys[0] = true;
    keys[11] = true;
    assert_eq!(key_mask(true, keys), 1 | (1 << 11));
    assert_eq!(key_mask(false, keys), 0);
}
