use deathloop_invader_tool::game::{host_campaign_day, read_opponent, OpponentSnapshot, Role};
use deathloop_invader_tool::memory::{read_string, Width};
use std::cell::Cell;
use std::collections::HashMap;

const BASE: u64 = 0x1_4000_0000;
const GAME: u64 = 0x2000_0000;
const LIST: u64 = 0x3000_0000;
const MANAGER: u64 = 0x4000_0000;

struct Memory {
    cells: HashMap<u64, u64>,
}

impl Memory {
    fn session(flag: u8, ids: &[u64]) -> Memory {
        let mut cells = HashMap::new();
        cells.insert(BASE + 0x5BD1010, GAME);
        cells.insert(GAME, BASE + 0x2613250);
        cells.insert(GAME + 0x6A730, flag as u64);
        cells.insert(GAME + 0x210, LIST);
        cells.insert(GAME + 0x21C, ids.len() as u64);
        for (i, id) in ids.iter().enumerate() {
            cells.insert(LIST + 8 * i as u64, *id);
        }
        Memory { cells }
    }
    fn name(&mut self, rva: u64, bytes: &[u8]) {
        for (i, b) in bytes.iter().enumerate() {
            self.cells.insert(BASE + rva + i as u64, *b as u64);
        }
    }
    fn campaign(&mut self, day: u32) {
        self.cells.insert(GAME + 0x34D8, MANAGER);
        self.cells.insert(MANAGER, BASE + 0x2693B50);
        self.cells.insert(MANAGER + 0x80, day as u64);
    }
    fn read(&self, address: u64, width: Width) -> Result<u64, String> {
        match self.cells.get(&address) {
            Some(v) => Ok(match width {
                Width::Byte => *v & 0xFF,
                Width::Dword => *v & 0xFFFF_FFFF,
                Width::Qword => *v,
            }),
            None => Err(format!("Unreadable memory at {address:X}")),
        }
    }
}

#[test]
fn other_player() {
    assert_eq!(Role::from_flag(1).unwrap().opponent_name_rva(), 0x3334F68);
    assert_eq!(Role::from_flag(0).unwrap().opponent_name_rva(), 0x3335638);
    assert!(Role::from_flag(2).is_err());
}

#[test]
fn labels() {
    assert_eq!(
        OpponentSnapshot {
            role: Role::Host,
            name: Some("Juli".into()),
            player_count: 2,
            host_day: Some(219),
        }
        .display(),
        "Invader: Juli"
    );
    assert_eq!(
        OpponentSnapshot {
            role: Role::Invader,
            name: Some("Colt".into()),
            player_count: 2,
            host_day: Some(219),
        }
        .display(),
        "Host: Colt | Day 219"
    );
    assert_eq!(
        OpponentSnapshot {
            role: Role::Host,
            name: None,
            player_count: 1,
            host_day: None,
        }
        .display(),
        "Invader: waiting for opponent"
    );
}

#[test]
fn missing_day_keeps_name_and_missing_opponent_hides_day() {
    let mut snapshot = OpponentSnapshot {
        role: Role::Invader,
        name: Some("Colt".into()),
        player_count: 2,
        host_day: None,
    };
    assert_eq!(snapshot.display(), "Host: Colt");
    snapshot.host_day = Some(0);
    assert_eq!(snapshot.display(), "Host: Colt | Day 0");
    snapshot.name = None;
    assert_eq!(snapshot.display(), "Host: waiting for opponent");
}

#[test]
fn labels_and_flag_errors() {
    assert_eq!(Role::Host.opponent_label(), "Invader");
    assert_eq!(Role::Invader.opponent_label(), "Host");
    assert_eq!(Role::from_flag(0).unwrap(), Role::Invader);
    assert_eq!(Role::from_flag(1).unwrap(), Role::Host);
    assert_eq!(Role::from_flag(255).unwrap_err(), "Invalid host/client flag");
}

#[test]
fn negative_and_extreme_days_render_in_decimal() {
    let mut s = OpponentSnapshot {
        role: Role::Invader,
        name: Some("A".into()),
        player_count: 2,
        host_day: Some(-42),
    };
    assert_eq!(s.display(), "Host: A | Day -42");
    s.host_day = Some(i32::MIN);
    assert_eq!(s.display(), "Host: A | Day -2147483648");
    s.host_day = Some(i32::MAX);
    assert_eq!(s.display(), "Host: A | Day 2147483647");
    s.role = Role::Host;
    assert_eq!(s.display(), "Invader: A");
}

#[test]
fn host_reads_invader_name_once_two_players_are_loaded() {
    let mut m = Memory::session(1, &[7, 9]);
    m.name(0x3334F68, b"Juli\0");
    let s = read_opponent(&|a, w| m.read(a, w), &|a, w| m.read(a, w), BASE).unwrap();
    assert_eq!(s.role, Role::Host);
    assert_eq!(s.name.as_deref(), Some("Juli"));
    assert_eq!(s.player_count, 2);
    assert_eq!(s.host_day, None);
    assert_eq!(s.display(), "Invader: Juli");
}

#[test]
fn invader_reads_host_name_and_campaign_day() {
    let mut m = Memory::session(0, &[7, 9]);
    m.name(0x3335638, b"Colt\0");
    m.campaign(219);
    let s = read_opponent(&|a, w| m.read(a, w), &|a, w| m.read(a, w), BASE).unwrap();
    assert_eq!(s.role, Role::Invader);
    assert_eq!(s.display(), "Host: Colt | Day 219");
}

#[test]
fn unreadable_or_negative_day_keeps_the_name() {
    let mut m = Memory::session(0, &[7, 9]);
    m.name(0x3335638, b"Colt\0");
    let s = read_opponent(&|a, w| m.read(a, w), &|a, w| m.read(a, w), BASE).unwrap();
    assert_eq!(s.display(), "Host: Colt");
    m.campaign(0xFFFF_FFFF);
    let s = read_opponent(&|a, w| m.read(a, w), &|a, w| m.read(a, w), BASE).unwrap();
    assert_eq!(s.host_day, None);
    assert_eq!(s.name.as_deref(), Some("Colt"));
}

#[test]
fn stale_name_is_withheld_without_a_second_player() {
    let mut m = Memory::session(1, &[7, 0, u64::MAX, 7]);
    m.name(0x3334F68, b"Juli\0");
    let s = read_opponent(&|a, w| m.read(a, w), &|a, w| m.read(a, w), BASE).unwrap();
    assert_eq!(s.player_count, 1);
    assert_eq!(s.name, None);
    assert_eq!(s.display(), "Invader: waiting for opponent");
}

#[test]
fn names_are_trimmed_and_control_characters_hide_them() {
    let mut m = Memory::session(1, &[7, 9]);
    m.name(0x3334F68, b"  Juli \t\0");
    let s = read_opponent(&|a, w| m.read(a, w), &|a, w| m.read(a, w), BASE).unwrap();
    assert_eq!(s.name.as_deref(), Some("Juli"));
    m.name(0x3334F68, b"Ju\x07li\0");
    let s = read_opponent(&|a, w| m.read(a, w), &|a, w| m.read(a, w), BASE).unwrap();
    assert_eq!(s.name, None);
    m.name(0x3334F68, b"   \0");
    let s = read_opponent(&|a, w| m.read(a, w), &|a, w| m.read(a, w), BASE).unwrap();
    assert_eq!(s.name, None);
}

#[test]
fn invalid_utf8_in_a_name_is_replaced() {
    let mut m = Memory::session(1, &[7, 9]);
    m.name(0x3334F68, b"J\xFFli\0");
    let s = read_opponent(&|a, w| m.read(a, w), &|a, w| m.read(a, w), BASE).unwrap();
    assert_eq!(s.name.as_deref(), Some("J\u{FFFD}li"));
}

#[test]
fn unterminated_name_buffer_is_an_error() {
    let mut m = Memory::session(1, &[7, 9]);
    m.name(0x3334F68, &[b'x'; 32]);
    let r = read_opponent(&|a, w| m.read(a, w), &|a, w| m.read(a, w), BASE);
    assert_eq!(r.unwrap_err(), "Unterminated name buffer");
}

#[test]
fn session_checks() {
    let mut m = Memory::session(2, &[7, 9]);
    assert_eq!(
        read_opponent(&|a, w| m.read(a, w), &|a, w| m.read(a, w), BASE).unwrap_err(),
        "Invalid host/client flag"
    );
    m.cells.insert(GAME, 0);
    assert_eq!(
        read_opponent(&|a, w| m.read(a, w), &|a, w| m.read(a, w), BASE).unwrap_err(),
        "Waiting for a supported game session"
    );
    let mut m = Memory::session(1, &[1, 2, 3, 4, 5]);
    assert_eq!(
        read_opponent(&|a, w| m.read(a, w), &|a, w| m.read(a, w), BASE).unwrap_err(),
        "Player list unavailable"
    );
    m.cells.insert(BASE + 0x5BD1010, 0x100);
    assert_eq!(
        read_opponent(&|a, w| m.read(a, w), &|a, w| m.read(a, w), BASE).unwrap_err(),
        "Waiting for a supported game session"
    );
    let m = Memory { cells: HashMap::new() };
    assert_eq!(
        read_opponent(&|a, w| m.read(a, w), &|a, w| m.read(a, w), BASE).unwrap_err(),
        format!("Unreadable memory at {:X}", BASE + 0x5BD1010)
    );
}

#[test]
fn a_session_change_during_the_reading_is_an_error() {
    let mut m = Memory::session(1, &[7, 9]);
    m.name(0x3334F68, b"Juli\0");
    let pointer_reads = Cell::new(0);
    let read = |a: u64, w: Width| {
        if a == BASE + 0x5BD1010 {
            pointer_reads.set(pointer_reads.get() + 1);
            if pointer_reads.get() > 1 {
                return Ok(GAME + 0x1000);
            }
        }
        m.read(a, w)
    };
    assert_eq!(read_opponent(&read, &read, BASE).unwrap_err(), "Session changing");
}

#[test]
fn a_changed_header_at_the_recheck_is_session_changing() {
    let mut m = Memory::session(1, &[7, 9]);
    m.name(0x3334F68, b"Juli\0");
    let same = read_opponent(&|a, w| m.read(a, w), &|a, w| m.read(a, w), BASE).unwrap();
    assert_eq!(same.name.as_deref(), Some("Juli"));
    let mut later = Memory::session(1, &[7, 9]);
    later.cells.insert(GAME + 0x21C, 3);
    let r = read_opponent(&|a, w| m.read(a, w), &|a, w| later.read(a, w), BASE);
    assert_eq!(r.unwrap_err(), "Session changing");
    let mut later = Memory::session(0, &[7, 9]);
    later.cells.insert(GAME + 0x21C, 2);
    let r = read_opponent(&|a, w| m.read(a, w), &|a, w| later.read(a, w), BASE);
    assert_eq!(r.unwrap_err(), "Session changing");
    let empty = Memory { cells: HashMap::new() };
    let r = read_opponent(&|a, w| m.read(a, w), &|a, w| empty.read(a, w), BASE);
    assert_eq!(r.unwrap_err(), format!("Unreadable memory at {:X}", BASE + 0x5BD1010));
}

#[test]
fn string_reads_stop_at_the_limit_and_at_the_first_failed_read() {
    let mut m = Memory { cells: HashMap::new() };
    for (i, b) in b"abcd".iter().enumerate() {
        m.cells.insert(0x100 + i as u64, *b as u64);
    }
    let r = read_string(&|a, w| m.read(a, w), 0x100, 4);
    assert_eq!(r.unwrap_err(), "Unterminated name buffer");
    let r = read_string(&|a, w| m.read(a, w), 0x100, 6);
    assert_eq!(r.unwrap_err(), "Unreadable memory at 104");
    let r = read_string(&|a, w| m.read(a, w), 0x100, 0);
    assert_eq!(r.unwrap_err(), "Unterminated name buffer");
    m.cells.insert(0x104, 0);
    assert_eq!(read_string(&|a, w| m.read(a, w), 0x100, 5).unwrap(), "abcd");
    m.cells.insert(0x101, 0);
    assert_eq!(read_string(&|a, w| m.read(a, w), 0x100, 5).unwrap(), "a");
}

#[test]
fn a_failed_read_ends_the_opponent_reading_with_its_error() {
    let mut m = Memory::session(1, &[7, 9]);
    m.name(0x3334F68, b"Juli\0");
    m.cells.remove(&(GAME + 0x21C));
    let r = read_opponent(&|a, w| m.read(a, w), &|a, w| m.read(a, w), BASE);
    assert_eq!(r.unwrap_err(), format!("Unreadable memory at {:X}", GAME + 0x21C));
    let mut m = Memory::session(1, &[7, 9]);
    m.cells.remove(&(LIST + 8));
    let r = read_opponent(&|a, w| m.read(a, w), &|a, w| m.read(a, w), BASE);
    assert_eq!(r.unwrap_err(), format!("Unreadable memory at {:X}", LIST + 8));
}

#[test]
fn the_campaign_day_is_read_and_checked_again() {
    let mut m = Memory::session(0, &[7, 9]);
    m.campaign(219);
    let read = |a, w| m.read(a, w);
    assert_eq!(host_campaign_day(&read, &read, BASE, GAME), Ok(219));
    let mut later = Memory::session(0, &[7, 9]);
    later.cells.insert(GAME + 0x34D8, MANAGER + 0x100);
    let again = |a, w| later.read(a, w);
    assert_eq!(host_campaign_day(&read, &again, BASE, GAME).unwrap_err(), "Campaign changing");
    let empty = Memory { cells: HashMap::new() };
    assert_eq!(
        host_campaign_day(&read, &|a, w| empty.read(a, w), BASE, GAME).unwrap_err(),
        format!("Unreadable memory at {:X}", GAME + 0x34D8)
    );
    let m = Memory::session(0, &[7, 9]);
    let read = |a, w| m.read(a, w);
    assert_eq!(
        host_campaign_day(&read, &read, BASE, GAME).unwrap_err(),
        format!("Unreadable memory at {:X}", GAME + 0x34D8)
    );
    let mut m = Memory::session(0, &[7, 9]);
    m.cells.insert(GAME + 0x34D8, 5);
    let read = |a, w| m.read(a, w);
    assert_eq!(host_campaign_day(&read, &read, BASE, GAME).unwrap_err(), "Campaign unavailable");
    let mut m = Memory::session(0, &[7, 9]);
    m.campaign(0x8000_0000);
    let read = |a, w| m.read(a, w);
    assert_eq!(host_campaign_day(&read, &read, BASE, GAME).unwrap_err(), "Campaign changing");
}

#[test]
fn a_changed_campaign_at_the_recheck_leaves_the_day_out() {
    let mut m = Memory::session(0, &[7, 9]);
    m.name(0x3335638, b"Colt\0");
    m.campaign(219);
    let mut later = Memory::session(0, &[7, 9]);
    later.cells.insert(GAME + 0x34D8, MANAGER + 0x100);
    let s = read_opponent(&|a, w| m.read(a, w), &|a, w| later.read(a, w), BASE).unwrap();
    assert_eq!(s.display(), "Host: Colt");
}
