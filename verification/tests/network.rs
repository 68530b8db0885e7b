use deathloop_invader_tool::memory::Width;
use deathloop_invader_tool::network::{
    delta, read_peer, select_peer, Monitor, PeerReading, PeerSample, Rates,
};
use std::collections::HashMap;

#[test]
fn invader_uses_connected_indexed_host_in_state_three() {
    assert_eq!(select_peer(false, 0, &[(2, 3)]), Ok(0));
    assert_eq!(select_peer(false, 1, &[(2, 6), (2, 3)]), Ok(1));
}

#[test]
fn invalid_or_disconnected_host_is_not_replaced_with_another_peer() {
    for index in [-1, 1, i32::MAX] {
        assert!(select_peer(false, index, &[(2, 3)]).is_err());
    }
    assert!(select_peer(false, 0, &[]).is_err());
    assert!(select_peer(false, 0, &[(0, 3), (2, 6)]).is_err());
}

#[test]
fn host_keeps_gameplay_filter_and_rejects_ambiguity() {
    assert!(select_peer(true, 0, &[(2, 3)]).is_err());
    assert_eq!(select_peer(true, -1, &[(2, 3), (2, 6)]), Ok(1));
    assert!(select_peer(true, -1, &[(2, 6), (2, 6)]).is_err());
    assert!(select_peer(true, -1, &[(0, 6)]).is_err());
}

#[test]
fn select_peer_error_messages() {
    assert_eq!(
        select_peer(true, -1, &[(2, 6), (1, 9), (2, 7)]).unwrap_err(),
        "Multiple active peers"
    );
    assert_eq!(select_peer(true, -1, &[]).unwrap_err(), "Waiting for game peer");
    assert_eq!(select_peer(false, -1, &[(2, 6)]).unwrap_err(), "Waiting for game peer");
}

#[test]
fn wrap_and_reset() {
    assert_eq!(delta(4, u32::MAX - 5, 1_000_000_000, 100), Some(10));
    assert_eq!(delta(2, 100, 1_000_000_000, 100), None);
}

#[test]
fn zero_interval_has_no_rate() {
    assert_eq!(delta(5, 5, 0, 100), None);
    assert_eq!(delta(6, 5, 0, 100), None);
    assert_eq!(delta(5, 5, 1, 100), Some(0));
}

fn sample() -> PeerSample {
    PeerSample {
        key: (1, 2, 3, 4),
        tx: 0,
        rx: 0,
        packets: 0,
        ping: Some(40),
        reply: 0,
    }
}

const T: u64 = 5_000_000_000;

#[test]
fn peer_change_clears_rates() {
    let mut m = Monitor::new();
    let mut s = sample();
    m.accept(s, T);
    s.tx = 1024;
    s.rx = 2048;
    s.packets = 10;
    let r = m.accept(s, T + 1_000_000_000).rates.unwrap();
    assert_eq!(
        r,
        Rates {
            tx_bytes: 1024,
            rx_bytes: 2048,
            tx_packets: 10,
            elapsed_ns: 1_000_000_000
        }
    );
    let seconds = r.elapsed_ns as f64 / 1e9;
    assert_eq!(r.rx_bytes as f64 / 1024. / seconds, 2.0);
    assert_eq!(r.tx_bytes as f64 / 1024. / seconds, 1.0);
    s.key.0 = 2;
    assert!(m.accept(s, T + 2_000_000_000).rates.is_none());
}

#[test]
fn unchanged_poll_is_not_a_new_ping_sample() {
    let mut m = Monitor::new();
    let mut s = sample();
    m.accept(s, T);
    s.ping = Some(60);
    s.reply = 1;
    m.accept(s, T + 250_000_000);
    let r = m.accept(s, T + 500_000_000);
    assert_eq!(r.variation_count, 1);
    assert_eq!(r.variation_sum, 20);
    assert_eq!(m.accept(s, T + 12_000_000_000).ping, None);
}

#[test]
fn variation_keeps_the_last_twenty_differences() {
    let mut m = Monitor::new();
    let mut s = sample();
    m.accept(s, T);
    for i in 1..=30u64 {
        s.reply = i;
        s.ping = Some(if i % 2 == 0 { 40 } else { 50 });
        let r = m.accept(s, T + i * 10_000_000);
        assert_eq!(r.variation_count, i.min(20) as usize);
    }
    let r = m.accept(s, T + 400_000_000);
    assert_eq!(r.variation_sum, 200);
}

#[test]
fn implausible_rates_and_idle_time() {
    let mut m = Monitor::new();
    let mut s = sample();
    let r = m.accept(s, T);
    assert_eq!(r.rx_idle_ns, 0);
    assert_eq!(r.rates, None);
    s.tx = 200_000_000;
    let r = m.accept(s, T + 1_000_000_000);
    assert_eq!(r.rates, None);
    assert_eq!(r.rx_idle_ns, 1_000_000_000);
    s.rx = 5;
    let r = m.accept(s, T + 1_500_000_000);
    assert_eq!(r.rx_idle_ns, 0);
    m.reset();
    assert_eq!(m.accept(s, T).ping, Some(40));
}

const BASE: u64 = 0x1_4000_0000;
const ROOT: u64 = 0x2000_0000;
const PEERS: u64 = 0x3000_0000;
const PROCESSOR: u64 = 0x5000_0000;

fn lobby(role: u8, host_index: u32, states: &[(u32, u32)]) -> HashMap<u64, u64> {
    let mut c = HashMap::new();
    c.insert(BASE + 0x5BD1010, ROOT);
    c.insert(ROOT, BASE + 0x2613250);
    c.insert(ROOT + 0x6A730, role as u64);
    c.insert(BASE + 0x332F2D0 + 0x3E98, host_index as u64);
    c.insert(BASE + 0x3333088 + 0x25C8, PEERS);
    c.insert(BASE + 0x3333088 + 0x25D4, states.len() as u64);
    for (i, (conn, play)) in states.iter().enumerate() {
        let p = PEERS + 0x3E0 * i as u64;
        c.insert(p, 0xAB + i as u64);
        c.insert(p + 4, *conn as u64);
        c.insert(p + 8, *play as u64);
        c.insert(p + 0x278, PROCESSOR + 0x1000_0000 * i as u64);
        c.insert(p + 0x328, 45);
        c.insert(p + 0x2E8, 777);
        let q = PROCESSOR + 0x1000_0000 * i as u64;
        c.insert(q + 0x101870, 0.25f32.to_bits() as u64);
        c.insert(q + 0x1017F8, 100);
        c.insert(q + 0x1017FC, 200);
        c.insert(q + 0x10181C, 3);
        c.insert(q + 0x101868, 64);
    }
    c
}

fn reader(c: &HashMap<u64, u64>) -> impl Fn(u64, Width) -> Result<u64, String> + '_ {
    move |a, w| match c.get(&a) {
        Some(v) => Ok(match w {
            Width::Byte => v & 0xFF,
            Width::Dword => v & 0xFFFF_FFFF,
            Width::Qword => *v,
        }),
        None => Err(format!("Unreadable memory at {a:X}")),
    }
}

#[test]
fn peer_reading_follows_the_selected_peer() {
    let c = lobby(0, 1, &[(2, 6), (2, 3)]);
    let r = read_peer(&reader(&c), &reader(&c), 42, BASE).unwrap();
    let p = PEERS + 0x3E0;
    assert_eq!(r.sample.key, (42, p, PROCESSOR + 0x1000_0000, 0xAC));
    assert_eq!(r.sample.tx, 100);
    assert_eq!(r.sample.rx, 200);
    assert_eq!(r.sample.packets, 3);
    assert_eq!(r.sample.ping, Some(45));
    assert_eq!(r.sample.reply, 777);
    assert_eq!(f32::from_bits(r.loss_bits), 0.25);
    assert_eq!(r.loss_window, 64);
}

#[test]
fn peer_reading_errors() {
    let c = lobby(1, 0, &[(2, 6), (2, 7)]);
    assert_eq!(read_peer(&reader(&c), &reader(&c), 1, BASE).unwrap_err(), "Multiple active peers");
    let c = lobby(3, 0, &[(2, 6)]);
    assert_eq!(read_peer(&reader(&c), &reader(&c), 1, BASE).unwrap_err(), "Invalid host/client flag");
    let mut c = lobby(1, 0, &[(2, 6)]);
    c.insert(BASE + 0x3333088 + 0x25D4, 17);
    assert_eq!(read_peer(&reader(&c), &reader(&c), 1, BASE).unwrap_err(), "Peer list unavailable");
    let mut c = lobby(1, 0, &[(2, 6)]);
    c.insert(PEERS + 0x328, 70_000);
    assert_eq!(read_peer(&reader(&c), &reader(&c), 1, BASE).unwrap().sample.ping, None);
    c.insert(PEERS + 0x278, 5);
    assert_eq!(read_peer(&reader(&c), &reader(&c), 1, BASE).unwrap_err(), "Peer counters unavailable");
    c.insert(ROOT, 1);
    assert_eq!(read_peer(&reader(&c), &reader(&c), 1, BASE).unwrap_err(), "Unsupported game");
}

#[test]
fn a_changed_peer_at_the_recheck_is_peer_changing() {
    let c = lobby(0, 1, &[(2, 6), (2, 3)]);
    assert!(read_peer(&reader(&c), &reader(&c), 42, BASE).is_ok());
    let mut later = c.clone();
    later.insert(PEERS + 0x3E0 + 4, 1);
    assert_eq!(read_peer(&reader(&c), &reader(&later), 42, BASE).unwrap_err(), "Peer changing");
    let mut later = c.clone();
    later.insert(BASE + 0x332F2D0 + 0x3E98, 0);
    assert_eq!(read_peer(&reader(&c), &reader(&later), 42, BASE).unwrap_err(), "Peer changing");
    let mut later = c.clone();
    later.insert(PEERS + 0x3E0 + 0x278, PROCESSOR);
    assert_eq!(read_peer(&reader(&c), &reader(&later), 42, BASE).unwrap_err(), "Peer changing");
    let c = lobby(1, 0, &[(2, 6)]);
    let mut later = c.clone();
    later.insert(BASE + 0x332F2D0 + 0x3E98, 5);
    assert!(read_peer(&reader(&c), &reader(&later), 42, BASE).is_ok());
    later.insert(PEERS + 8, 7);
    assert_eq!(read_peer(&reader(&c), &reader(&later), 42, BASE).unwrap_err(), "Peer changing");
}

#[test]
fn a_failed_read_ends_the_peer_reading_with_its_error() {
    let mut c = lobby(0, 1, &[(2, 6), (2, 3)]);
    c.remove(&(PEERS + 0x3E0 + 0x2E8));
    assert_eq!(
        read_peer(&reader(&c), &reader(&c), 42, BASE).unwrap_err(),
        format!("Unreadable memory at {:X}", PEERS + 0x3E0 + 0x2E8)
    );
    let c = lobby(0, 1, &[(2, 6), (2, 3)]);
    let mut later = c.clone();
    later.remove(&(BASE + 0x5BD1010));
    assert_eq!(
        read_peer(&reader(&c), &reader(&later), 42, BASE).unwrap_err(),
        format!("Unreadable memory at {:X}", BASE + 0x5BD1010)
    );
    let mut c = lobby(1, 0, &[(2, 6), (2, 7)]);
    c.remove(&(PEERS + 0x3E0 + 8));
    assert_eq!(
        read_peer(&reader(&c), &reader(&c), 42, BASE).unwrap_err(),
        format!("Unreadable memory at {:X}", PEERS + 0x3E0 + 8)
    );
}

#[test]
fn a_failed_reading_resets_the_histories() {
    let mut m = Monitor::new();
    let s = sample();
    let reading = PeerReading { sample: s, loss_bits: 0, loss_window: 0 };
    let r = m.observe(Ok(reading), T).unwrap();
    assert_eq!(r.ping, Some(40));
    let e = m.observe(Err("Peer changing".into()), T + 1).unwrap_err();
    assert_eq!(e, "Network: Peer changing");
    let r = m.observe(Ok(PeerReading { sample: PeerSample { ping: None, ..s }, ..reading }), T + 2)
        .unwrap();
    assert_eq!(r.ping, None);
    assert_eq!(r.rates, None);
}
