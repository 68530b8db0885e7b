//! Game peer counters, not adapter-wide traffic or an Internet speed test.
use crate::game::{GAME_POINTER, GAME_VTABLE, ROLE_FLAG};
use crate::memory::{
    answers_from, at, byte_answer, byte_at, dword_answer, dword_at, offset, qword_answer,
    qword_at, read_u32, read_u64, read_u8, reader_error, reader_ready, reads_from, Image, Width,
};
use std::collections::VecDeque;
use vstd::prelude::*;
use vstd::string::*;

verus! {

broadcast use vstd::std_specs::vecdeque::group_vec_dequeue_axioms;

/// A peer whose connection is up (state 2) and whose gameplay state is at least 6.
pub open spec fn is_active(s: (u32, u32)) -> bool {
    s.0 == 2 && s.1 >= 6
}

/// The indices of the active peers, in order.
pub open spec fn active_indices(states: Seq<(u32, u32)>) -> Seq<int>
    decreases states.len(),
{
    if states.len() == 0 {
        Seq::empty()
    } else {
        let before = active_indices(states.drop_last());
        if is_active(states.last()) {
            before.push(states.len() - 1)
        } else {
            before
        }
    }
}

/// The peer that carries the game: for an invader the indexed host, taken as long
/// as its connection is up and never replaced by another peer; for a host the one
/// active peer, none when there is none or more than one.
pub open spec fn peer_choice(host: bool, host_index: i32, states: Seq<(u32, u32)>) -> Result<
    int,
    Seq<char>,
> {
    if !host {
        if 0 <= host_index < states.len() && states[host_index as int].0 == 2 {
            Ok(host_index as int)
        } else {
            Err("Waiting for game peer"@)
        }
    } else {
        let act = active_indices(states);
        if act.len() == 0 {
            Err("Waiting for game peer"@)
        } else if act.len() == 1 {
            Ok(act[0])
        } else {
            Err("Multiple active peers"@)
        }
    }
}

/// An index result by plain values.
pub open spec fn index_result(r: Result<usize, String>) -> Result<int, Seq<char>> {
    match r {
        Ok(i) => Ok(i as int),
        Err(e) => Err(e@),
    }
}

proof fn lemma_active_indices(states: Seq<(u32, u32)>)
    ensures
        forall|k: int| 0 <= k < active_indices(states).len() ==> {
            let j = #[trigger] active_indices(states)[k];
            0 <= j < states.len() && is_active(states[j])
        },
        forall|j: int|
            0 <= j < states.len() && is_active(#[trigger] states[j]) ==> active_indices(
                states,
            ).contains(j),
        forall|k1: int, k2: int|
            0 <= k1 < k2 < active_indices(states).len() ==> active_indices(states)[k1]
                < active_indices(states)[k2],
    decreases states.len(),
{
    if states.len() > 0 {
        let d = states.drop_last();
        lemma_active_indices(d);
        assert forall|j: int| 0 <= j < states.len() && is_active(#[trigger] states[j]) implies active_indices(
            states,
        ).contains(j) by {
            if j < states.len() - 1 {
                assert(d[j] == states[j]);
                let k = choose|k: int| 0 <= k < active_indices(d).len() && active_indices(d)[k] == j;
                assert(active_indices(states)[k] == j);
            } else {
                let a = active_indices(states);
                assert(a[a.len() - 1] == j);
            }
        }
    }
}

/// Picks the peer whose counters describe the game.
pub fn select_peer(host: bool, host_index: i32, states: &[(u32, u32)]) -> (res: Result<
    usize,
    String,
>)
    ensures
        index_result(res) == peer_choice(host, host_index, states@),
{
    if !host {
        if host_index < 0 {
            return Err(String::from_str("Waiting for game peer"));
        }
        let index = host_index as usize;
        if index < states.len() && states[index].0 == 2 {
            return Ok(index);
        }
        return Err(String::from_str("Waiting for game peer"));
    }
    let mut found: Option<usize> = None;
    let mut k: usize = 0;
    while k < states.len()
        invariant
            host,
            k <= states.len(),
            match found {
                None => active_indices(states@.subrange(0, k as int)).len() == 0,
                Some(i) => active_indices(states@.subrange(0, k as int)) == seq![i as int],
            },
        decreases states.len() - k,
    {
        let s = states[k];
        proof {
            let pre = states@.subrange(0, k as int + 1);
            assert(pre.drop_last() =~= states@.subrange(0, k as int));
            assert(pre.last() == s);
        }
        if s.0 == 2 && s.1 >= 6 {
            if found.is_some() {
                proof {
                    let all = states@;
                    let pre = all.subrange(0, k as int + 1);
                    lemma_active_prefix(all, k as int + 1);
                    assert(pre.drop_last() =~= all.subrange(0, k as int));
                    assert(is_active(pre.last()));
                    assert(active_indices(pre).len() == 2);
                    assert(active_indices(all).len() >= 2);
                }
                let e = String::from_str("Multiple active peers");
                return Err(e);
            }
            found = Some(k);
        }
        k = k + 1;
    }
    proof {
        assert(states@.subrange(0, states@.len() as int) =~= states@);
    }
    match found {
        Some(i) => Ok(i),
        None => Err(String::from_str("Waiting for game peer")),
    }
}

proof fn lemma_active_prefix(states: Seq<(u32, u32)>, n: int)
    requires
        0 <= n <= states.len(),
    ensures
        active_indices(states.subrange(0, n)).len() <= active_indices(states).len(),
        active_indices(states.subrange(0, n)).len() >= 2 ==> active_indices(states).len() >= 2,
    decreases states.len() - n,
{
    if n < states.len() {
        lemma_active_prefix(states.drop_last(), n);
        assert(states.drop_last().subrange(0, n) =~= states.subrange(0, n));
    } else {
        assert(states.subrange(0, n) =~= states);
    }
}

} // verus!

verus! {

/// Module offset of the game lobby.
pub const LOBBY: u64 = 0x3333088;

/// Module offsets whose sum locates the index of the host peer.
pub const HOST_INDEX_TABLE: u64 = 0x332F2D0;

pub const HOST_INDEX_ENTRY: u64 = 0x3E98;

/// Lobby offset of the pointer to the peer array.
pub const PEER_LIST: u64 = 0x25C8;

/// Lobby offset of the number of peers.
pub const PEER_COUNT: u64 = 0x25D4;

/// Bytes of one peer.
pub const PEER_STRIDE: u64 = 0x3E0;

/// Peer offsets of the connection and gameplay states.
pub const PEER_CONNECTION: u64 = 4;

pub const PEER_GAMEPLAY: u64 = 8;

/// Peer offset of the pointer to the packet processor.
pub const PEER_PROCESSOR: u64 = 0x278;

/// Peer offset of the round-trip time in milliseconds.
pub const PEER_PING: u64 = 0x328;

/// Peer offset of the receive time of the last ping reply.
pub const PEER_REPLY: u64 = 0x2E8;

/// Processor offsets of the counters.
pub const PROCESSOR_TX_BYTES: u64 = 0x1017F8;

pub const PROCESSOR_RX_BYTES: u64 = 0x1017FC;

pub const PROCESSOR_TX_PACKETS: u64 = 0x10181C;

pub const PROCESSOR_LOSS_WINDOW: u64 = 0x101868;

pub const PROCESSOR_LOSS: u64 = 0x101870;

/// The counters of the selected peer at one moment.
#[derive(Clone, Copy, Debug, PartialEq, Eq)]
pub struct PeerSample {
    /// Process, peer address, processor address and the peer's first field: a change
    /// of any of them is a different peer.
    pub key: (u32, u64, u64, u32),
    pub tx: u32,
    pub rx: u32,
    pub packets: u32,
    /// Round-trip time in milliseconds, when it is in `0..=60000`.
    pub ping: Option<i32>,
    pub reply: u64,
}

/// A peer sample with the raw loss estimate: the bits of the 32-bit float that
/// holds the lost fraction, and the size of its window.
#[derive(Clone, Copy, Debug, PartialEq, Eq)]
pub struct PeerReading {
    pub sample: PeerSample,
    pub loss_bits: u32,
    pub loss_window: u32,
}

/// A peer reading by plain values.
pub open spec fn reading_result(r: Result<PeerReading, String>) -> Result<PeerReading, Seq<char>> {
    match r {
        Ok(p) => Ok(p),
        Err(e) => Err(e@),
    }
}

/// Address of the peer at `index`.
pub open spec fn peer_addr(list: u64, index: int) -> u64 {
    at(list, (index * PEER_STRIDE) as u64)
}

/// Connection and gameplay states of the first `count` peers.
pub open spec fn states_at(mem: Image, list: u64, count: nat) -> Seq<(u32, u32)> {
    Seq::new(
        count,
        |i: int|
            (
                dword_at(mem, at(peer_addr(list, i), PEER_CONNECTION)),
                dword_at(mem, at(peer_addr(list, i), PEER_GAMEPLAY)),
            ),
    )
}

/// A round-trip time as the overlay takes it: only within a minute.
pub open spec fn valid_ping(ping: i32) -> Option<i32> {
    if 0 <= ping <= 60000 {
        Some(ping)
    } else {
        None
    }
}

/// The counters of the peer that carries the game, as a memory image holds them.
pub open spec fn peer_at(mem: Image, pid: u32, base: u64) -> Result<PeerReading, Seq<char>> {
    let root = qword_at(mem, at(base, GAME_POINTER));
    if qword_at(mem, root) != at(base, GAME_VTABLE) {
        Err("Unsupported game"@)
    } else {
        let lobby = at(base, LOBBY);
        let role = byte_at(mem, at(root, ROLE_FLAG));
        if role > 1 {
            Err("Invalid host/client flag"@)
        } else {
            let host_index = dword_at(mem, at(at(base, HOST_INDEX_TABLE), HOST_INDEX_ENTRY)) as i32;
            let list = qword_at(mem, at(lobby, PEER_LIST));
            let count = dword_at(mem, at(lobby, PEER_COUNT));
            if count > 16 || (count > 0 && list < 0x10000) {
                Err("Peer list unavailable"@)
            } else {
                match peer_choice(role == 1, host_index, states_at(mem, list, count as nat)) {
                    Err(e) => Err(e),
                    Ok(index) => {
                        let p = peer_addr(list, index);
                        let processor = qword_at(mem, at(p, PEER_PROCESSOR));
                        if processor < 0x10000 {
                            Err("Peer counters unavailable"@)
                        } else {
                            Ok(
                                PeerReading {
                                    sample: PeerSample {
                                        key: (pid, p, processor, dword_at(mem, p)),
                                        tx: dword_at(mem, at(processor, PROCESSOR_TX_BYTES)),
                                        rx: dword_at(mem, at(processor, PROCESSOR_RX_BYTES)),
                                        packets: dword_at(mem, at(processor, PROCESSOR_TX_PACKETS)),
                                        ping: valid_ping(
                                            dword_at(mem, at(p, PEER_PING)) as i32,
                                        ),
                                        reply: qword_at(mem, at(p, PEER_REPLY)),
                                    },
                                    loss_bits: dword_at(mem, at(processor, PROCESSOR_LOSS)),
                                    loss_window: dword_at(
                                        mem,
                                        at(processor, PROCESSOR_LOSS_WINDOW),
                                    ),
                                },
                            )
                        }
                    },
                }
            }
        }
    }
}

/// The errors that a peer reading can end in besides a failed read.
pub open spec fn peer_error(e: Seq<char>) -> bool {
    ||| e == "Unsupported game"@
    ||| e == "Invalid host/client flag"@
    ||| e == "Peer list unavailable"@
    ||| e == "Waiting for game peer"@
    ||| e == "Multiple active peers"@
    ||| e == "Peer counters unavailable"@
    ||| e == "Peer changing"@
}

/// Connection and gameplay states of the peers from peer `i` on, as a reader that
/// answers as `ans` gives them, each peer's connection read before its gameplay
/// state; the first failed read ends them with its error.
pub open spec fn states_answer(
    ans: spec_fn(u64, Width) -> Result<u64, String>,
    list: u64,
    count: nat,
    i: nat,
) -> Result<Seq<(u32, u32)>, Seq<char>>
    decreases count - i,
{
    if i >= count {
        Ok(Seq::empty())
    } else {
        let p = at(list, (i * PEER_STRIDE) as u64);
        match dword_answer(ans, at(p, PEER_CONNECTION)) {
            Err(e) => Err(e@),
            Ok(c) => match dword_answer(ans, at(p, PEER_GAMEPLAY)) {
                Err(e) => Err(e@),
                Ok(g) => match states_answer(ans, list, count, i + 1) {
                    Ok(t) => Ok(seq![(c, g)] + t),
                    Err(e) => Err(e),
                },
            },
        }
    }
}

/// States already read in front of the rest.
pub open spec fn states_prefixed(b: Seq<(u32, u32)>, r: Result<Seq<(u32, u32)>, Seq<char>>) -> Result<
    Seq<(u32, u32)>,
    Seq<char>,
> {
    match r {
        Ok(t) => Ok(b + t),
        Err(e) => Err(e),
    }
}

/// Peer states by plain values.
pub open spec fn states_result(r: Result<Vec<(u32, u32)>, String>) -> Result<
    Seq<(u32, u32)>,
    Seq<char>,
> {
    match r {
        Ok(v) => Ok(v@),
        Err(e) => Err(e@),
    }
}

fn read_states<F: Fn(u64, Width) -> Result<u64, String>>(
    read: &F,
    list: u64,
    count: u32,
) -> (res: Result<Vec<(u32, u32)>, String>)
    requires
        reader_ready(*read),
        count <= 16,
    ensures
        forall|mem: Image| #[trigger]
            reads_from(*read, mem) ==> (res matches Ok(v) && v@ == states_at(
                mem,
                list,
                count as nat,
            )),
        forall|ans: spec_fn(u64, Width) -> Result<u64, String>| #[trigger]
            answers_from(*read, ans) ==> states_result(res) == states_answer(
                ans,
                list,
                count as nat,
                0,
            ),
        res matches Ok(v) ==> v@.len() == count,
        res matches Err(e) ==> reader_error(*read, e),
{
    let mut states: Vec<(u32, u32)> = Vec::new();
    let mut i: u32 = 0;
    proof {
        assert forall|ans: spec_fn(u64, Width) -> Result<u64, String>| #[trigger]
            answers_from(*read, ans) implies states_answer(ans, list, count as nat, 0)
            == states_prefixed(states@, states_answer(ans, list, count as nat, 0)) by {
            match states_answer(ans, list, count as nat, 0) {
                Ok(t) => {
                    assert(states@ + t =~= t);
                },
                Err(_) => {},
            }
        }
    }
    while i < count
        invariant
            reader_ready(*read),
            i <= count <= 16,
            states@.len() == i,
            forall|mem: Image| #[trigger]
                reads_from(*read, mem) ==> states@ == states_at(mem, list, i as nat),
            forall|ans: spec_fn(u64, Width) -> Result<u64, String>| #[trigger]
                answers_from(*read, ans) ==> states_answer(ans, list, count as nat, 0)
                    == states_prefixed(states@, states_answer(ans, list, count as nat, i as nat)),
        decreases count - i,
    {
        let p = offset(list, (i as u64) * PEER_STRIDE);
        let connection = match read_u32(read, offset(p, PEER_CONNECTION)) {
            Ok(v) => v,
            Err(e) => {
                proof {
                    assert forall|ans: spec_fn(u64, Width) -> Result<u64, String>| #[trigger]
                        answers_from(*read, ans) implies states_result(
                        Err::<Vec<(u32, u32)>, String>(e),
                    ) == states_answer(ans, list, count as nat, 0) by {
                        assert(states_answer(ans, list, count as nat, i as nat) == Err::<
                            Seq<(u32, u32)>,
                            Seq<char>,
                        >(e@));
                    }
                }
                return Err(e);
            },
        };
        let gameplay = match read_u32(read, offset(p, PEER_GAMEPLAY)) {
            Ok(v) => v,
            Err(e) => {
                proof {
                    assert forall|ans: spec_fn(u64, Width) -> Result<u64, String>| #[trigger]
                        answers_from(*read, ans) implies states_result(
                        Err::<Vec<(u32, u32)>, String>(e),
                    ) == states_answer(ans, list, count as nat, 0) by {
                        assert(states_answer(ans, list, count as nat, i as nat) == Err::<
                            Seq<(u32, u32)>,
                            Seq<char>,
                        >(e@));
                    }
                }
                return Err(e);
            },
        };
        let ghost old_states = states@;
        states.push((connection, gameplay));
        proof {
            assert forall|mem: Image| #[trigger]
                reads_from(*read, mem) implies states@ == states_at(mem, list, (i + 1) as nat) by {
                assert(states@ =~= states_at(mem, list, (i + 1) as nat));
            }
            assert forall|ans: spec_fn(u64, Width) -> Result<u64, String>| #[trigger]
                answers_from(*read, ans) implies states_answer(ans, list, count as nat, 0)
                == states_prefixed(states@, states_answer(ans, list, count as nat, (i + 1) as nat)) by {
                match states_answer(ans, list, count as nat, (i + 1) as nat) {
                    Ok(t) => {
                        assert(old_states + (seq![(connection, gameplay)] + t) =~= states@ + t);
                    },
                    Err(_) => {},
                }
            }
        }
        i = i + 1;
    }
    proof {
        assert forall|ans: spec_fn(u64, Width) -> Result<u64, String>| #[trigger]
            answers_from(*read, ans) implies states_result(Ok::<Vec<(u32, u32)>, String>(states))
            == states_answer(ans, list, count as nat, 0) by {
            assert(states@ + Seq::<(u32, u32)>::empty() =~= states@);
        }
    }
    Ok(states)
}

/// The counters of the peer at `p` whose processor is at `processor`, as a reader
/// that answers as `ans` gives them, read in this order: ping, loss estimate, the
/// peer's first field, sent bytes, received bytes, sent packets, reply time, loss
/// window; the first failed read ends them with its error.
pub open spec fn counters_answer(
    ans: spec_fn(u64, Width) -> Result<u64, String>,
    pid: u32,
    p: u64,
    processor: u64,
) -> Result<PeerReading, Seq<char>> {
    match dword_answer(ans, at(p, PEER_PING)) {
        Err(e) => Err(e@),
        Ok(ping) => match dword_answer(ans, at(processor, PROCESSOR_LOSS)) {
            Err(e) => Err(e@),
            Ok(loss_bits) => match dword_answer(ans, p) {
                Err(e) => Err(e@),
                Ok(first) => match dword_answer(ans, at(processor, PROCESSOR_TX_BYTES)) {
                    Err(e) => Err(e@),
                    Ok(tx) => match dword_answer(ans, at(processor, PROCESSOR_RX_BYTES)) {
                        Err(e) => Err(e@),
                        Ok(rx) => match dword_answer(ans, at(processor, PROCESSOR_TX_PACKETS)) {
                            Err(e) => Err(e@),
                            Ok(packets) => match qword_answer(ans, at(p, PEER_REPLY)) {
                                Err(e) => Err(e@),
                                Ok(reply) => match dword_answer(
                                    ans,
                                    at(processor, PROCESSOR_LOSS_WINDOW),
                                ) {
                                    Err(e) => Err(e@),
                                    Ok(loss_window) => Ok(
                                        PeerReading {
                                            sample: PeerSample {
                                                key: (pid, p, processor, first),
                                                tx,
                                                rx,
                                                packets,
                                                ping: valid_ping(ping as i32),
                                                reply,
                                            },
                                            loss_bits,
                                            loss_window,
                                        },
                                    ),
                                },
                            },
                        },
                    },
                },
            },
        },
    }
}

/// A re-read through a reader that answers as `again` says: its error when it
/// fails, "Peer changing" when the value is not `expected`.
pub open spec fn same_answer(r: Result<u64, String>, expected: u64) -> Result<(), Seq<char>> {
    match r {
        Err(e) => Err(e@),
        Ok(v) => if v == expected {
            Ok(())
        } else {
            Err("Peer changing"@)
        },
    }
}

/// The closing re-reads of a peer reading, answered as `again` says, in this
/// order: peer list, peer count, processor, connection state (which must still be
/// up), gameplay state, the peer's first field, role flag, for an invader the host
/// index, and the game pointer. The first that fails ends them with its error; the
/// first that differs is "Peer changing".
pub open spec fn peer_recheck_answer(
    again: spec_fn(u64, Width) -> Result<u64, String>,
    base: u64,
    root: u64,
    role: u8,
    host_index: i32,
    list: u64,
    count: u32,
    p: u64,
    processor: u64,
    gameplay: u32,
    first: u32,
) -> Result<(), Seq<char>> {
    let lobby = at(base, LOBBY);
    let hia = at(at(base, HOST_INDEX_TABLE), HOST_INDEX_ENTRY);
    let dw = |r: Result<u32, String>|
        match r {
            Ok(v) => Ok::<u64, String>(v as u64),
            Err(e) => Err(e),
        };
    match same_answer(qword_answer(again, at(lobby, PEER_LIST)), list) {
        Err(e) => Err(e),
        Ok(_) => match same_answer(dw(dword_answer(again, at(lobby, PEER_COUNT))), count as u64) {
            Err(e) => Err(e),
            Ok(_) => match same_answer(qword_answer(again, at(p, PEER_PROCESSOR)), processor) {
                Err(e) => Err(e),
                Ok(_) => match same_answer(dw(dword_answer(again, at(p, PEER_CONNECTION))), 2) {
                    Err(e) => Err(e),
                    Ok(_) => match same_answer(
                        dw(dword_answer(again, at(p, PEER_GAMEPLAY))),
                        gameplay as u64,
                    ) {
                        Err(e) => Err(e),
                        Ok(_) => match same_answer(dw(dword_answer(again, p)), first as u64) {
                            Err(e) => Err(e),
                            Ok(_) => match byte_answer(again, at(root, ROLE_FLAG)) {
                                Err(e) => Err(e@),
                                Ok(r) => if r != role {
                                    Err("Peer changing"@)
                                } else {
                                    let hi = if role == 0 {
                                        match dword_answer(again, hia) {
                                            Err(e) => Err(e@),
                                            Ok(v) => if v as i32 != host_index {
                                                Err("Peer changing"@)
                                            } else {
                                                Ok(())
                                            },
                                        }
                                    } else {
                                        Ok(())
                                    };
                                    match hi {
                                        Err(e) => Err(e),
                                        Ok(_) => same_answer(
                                            qword_answer(again, at(base, GAME_POINTER)),
                                            root,
                                        ),
                                    }
                                },
                            },
                        },
                    },
                },
            },
        },
    }
}

/// The peer reading once the peer list is known: its states, the choice of peer,
/// the processor, the counters and the closing re-reads.
pub open spec fn peer_rest_answer(
    ans: spec_fn(u64, Width) -> Result<u64, String>,
    again: spec_fn(u64, Width) -> Result<u64, String>,
    pid: u32,
    base: u64,
    root: u64,
    role: u8,
    host_index: i32,
    list: u64,
    count: u32,
) -> Result<PeerReading, Seq<char>> {
    match states_answer(ans, list, count as nat, 0) {
        Err(e) => Err(e),
        Ok(states) => match peer_choice(role == 1, host_index, states) {
            Err(e) => Err(e),
            Ok(index) => {
                let p = peer_addr(list, index);
                match qword_answer(ans, at(p, PEER_PROCESSOR)) {
                    Err(e) => Err(e@),
                    Ok(processor) => if processor < 0x10000 {
                        Err("Peer counters unavailable"@)
                    } else {
                        match counters_answer(ans, pid, p, processor) {
                            Err(e) => Err(e),
                            Ok(reading) => match peer_recheck_answer(
                                again,
                                base,
                                root,
                                role,
                                host_index,
                                list,
                                count,
                                p,
                                processor,
                                states[index].1,
                                reading.sample.key.3,
                            ) {
                                Err(e) => Err(e),
                                Ok(_) => Ok(reading),
                            },
                        }
                    },
                }
            },
        },
    }
}

/// What a peer reading gives when its reads are answered as `ans` says and its
/// closing re-reads as `again` says: the reads come in the order of `peer_at`, the
/// first that fails ends the reading with its error, and a peer or session that
/// changed by the re-reads is "Peer changing".
pub open spec fn peer_answer(
    ans: spec_fn(u64, Width) -> Result<u64, String>,
    again: spec_fn(u64, Width) -> Result<u64, String>,
    pid: u32,
    base: u64,
) -> Result<PeerReading, Seq<char>> {
    let lobby = at(base, LOBBY);
    match qword_answer(ans, at(base, GAME_POINTER)) {
        Err(e) => Err(e@),
        Ok(root) => match qword_answer(ans, root) {
            Err(e) => Err(e@),
            Ok(vtable) => if vtable != at(base, GAME_VTABLE) {
                Err("Unsupported game"@)
            } else {
                match byte_answer(ans, at(root, ROLE_FLAG)) {
                    Err(e) => Err(e@),
                    Ok(role) => if role > 1 {
                        Err("Invalid host/client flag"@)
                    } else {
                        match dword_answer(ans, at(at(base, HOST_INDEX_TABLE), HOST_INDEX_ENTRY)) {
                            Err(e) => Err(e@),
                            Ok(hi) => match qword_answer(ans, at(lobby, PEER_LIST)) {
                                Err(e) => Err(e@),
                                Ok(list) => match dword_answer(ans, at(lobby, PEER_COUNT)) {
                                    Err(e) => Err(e@),
                                    Ok(count) => if count > 16 || (count > 0 && list < 0x10000) {
                                        Err("Peer list unavailable"@)
                                    } else {
                                        peer_rest_answer(
                                            ans,
                                            again,
                                            pid,
                                            base,
                                            root,
                                            role,
                                            hi as i32,
                                            list,
                                            count,
                                        )
                                    },
                                },
                            },
                        }
                    },
                }
            },
        },
    }
}

/// Reads the counters of the peer that carries the game from the game whose module
/// is loaded at `base` in process `pid`. A failed read ends the reading with its
/// error. The lobby, the peer and the role are then read again through
/// `recheck`, and a change makes the reading "Peer changing". Memory reads are no
/// atomic snapshot: `recheck` is the reader of that later moment, and a caller
/// that reads live memory passes the same reader twice.
pub fn read_peer<F: Fn(u64, Width) -> Result<u64, String>, G: Fn(u64, Width) -> Result<
    u64,
    String,
>>(read: &F, recheck: &G, pid: u32, base: u64) -> (res: Result<PeerReading, String>)
    requires
        reader_ready(*read),
        reader_ready(*recheck),
    ensures
        forall|
            ans: spec_fn(u64, Width) -> Result<u64, String>,
            again: spec_fn(u64, Width) -> Result<u64, String>,
        |
            #![trigger answers_from(*read, ans), answers_from(*recheck, again)]
            answers_from(*read, ans) && answers_from(*recheck, again) ==> reading_result(res)
                == peer_answer(ans, again, pid, base),
        forall|mem: Image|
            #![trigger reads_from(*read, mem), reads_from(*recheck, mem)]
            reads_from(*read, mem) && reads_from(*recheck, mem) ==> reading_result(res)
                == peer_at(mem, pid, base),
        res matches Ok(r) ==> r.sample.key.0 == pid && (r.sample.ping matches Some(p) ==> 0 <= p
            <= 60000),
        res matches Err(e) ==> peer_error(e@) || reader_error(*read, e) || reader_error(
            *recheck,
            e,
        ),
{
    let root = match read_u64(read, offset(base, GAME_POINTER)) {
        Ok(v) => v,
        Err(e) => return Err(e),
    };
    let vtable = match read_u64(read, root) {
        Ok(v) => v,
        Err(e) => return Err(e),
    };
    if vtable != offset(base, GAME_VTABLE) {
        return Err(String::from_str("Unsupported game"));
    }
    let lobby = offset(base, LOBBY);
    let role = match read_u8(read, offset(root, ROLE_FLAG)) {
        Ok(v) => v,
        Err(e) => return Err(e),
    };
    if role > 1 {
        return Err(String::from_str("Invalid host/client flag"));
    }
    let host_index_address = offset(offset(base, HOST_INDEX_TABLE), HOST_INDEX_ENTRY);
    let host_index = match read_u32(read, host_index_address) {
        Ok(v) => v as i32,
        Err(e) => return Err(e),
    };
    let list = match read_u64(read, offset(lobby, PEER_LIST)) {
        Ok(v) => v,
        Err(e) => return Err(e),
    };
    let count = match read_u32(read, offset(lobby, PEER_COUNT)) {
        Ok(v) => v,
        Err(e) => return Err(e),
    };
    if count > 16 || (count > 0 && list < 0x10000) {
        return Err(String::from_str("Peer list unavailable"));
    }
    let states = match read_states(read, list, count) {
        Ok(v) => v,
        Err(e) => return Err(e),
    };
    let index = match select_peer(role == 1, host_index, states.as_slice()) {
        Ok(i) => i,
        Err(e) => return Err(e),
    };
    proof {
        lemma_active_indices(states@);
    }
    assert(index < states.len());
    let p = offset(list, (index as u64) * PEER_STRIDE);
    let processor = match read_u64(read, offset(p, PEER_PROCESSOR)) {
        Ok(v) => v,
        Err(e) => return Err(e),
    };
    if processor < 0x10000 {
        return Err(String::from_str("Peer counters unavailable"));
    }
    let ping = match read_u32(read, offset(p, PEER_PING)) {
        Ok(v) => v as i32,
        Err(e) => return Err(e),
    };
    let loss_bits = match read_u32(read, offset(processor, PROCESSOR_LOSS)) {
        Ok(v) => v,
        Err(e) => return Err(e),
    };
    let first = match read_u32(read, p) {
        Ok(v) => v,
        Err(e) => return Err(e),
    };
    let tx = match read_u32(read, offset(processor, PROCESSOR_TX_BYTES)) {
        Ok(v) => v,
        Err(e) => return Err(e),
    };
    let rx = match read_u32(read, offset(processor, PROCESSOR_RX_BYTES)) {
        Ok(v) => v,
        Err(e) => return Err(e),
    };
    let packets = match read_u32(read, offset(processor, PROCESSOR_TX_PACKETS)) {
        Ok(v) => v,
        Err(e) => return Err(e),
    };
    let reply = match read_u64(read, offset(p, PEER_REPLY)) {
        Ok(v) => v,
        Err(e) => return Err(e),
    };
    let loss_window = match read_u32(read, offset(processor, PROCESSOR_LOSS_WINDOW)) {
        Ok(v) => v,
        Err(e) => return Err(e),
    };
    let sample = PeerSample {
        key: (pid, p, processor, first),
        tx,
        rx,
        packets,
        ping: if 0 <= ping && ping <= 60000 {
            Some(ping)
        } else {
            None
        },
        reply,
    };
    let reading = PeerReading { sample, loss_bits, loss_window };
    let gameplay = states[index].1;
    proof {
        assert forall|mem: Image| #[trigger] reads_from(*read, mem) implies {
            &&& peer_at(mem, pid, base) == Ok::<PeerReading, Seq<char>>(reading)
            &&& qword_at(mem, at(base, GAME_POINTER)) == root
            &&& byte_at(mem, at(root, ROLE_FLAG)) == role
            &&& dword_at(mem, host_index_address) as i32 == host_index
            &&& qword_at(mem, at(lobby, PEER_LIST)) == list
            &&& dword_at(mem, at(lobby, PEER_COUNT)) == count
            &&& peer_choice(role == 1, host_index, states_at(mem, list, count as nat)) == Ok::<
                int,
                Seq<char>,
            >(index as int)
            &&& peer_addr(list, index as int) == p
            &&& qword_at(mem, at(p, PEER_PROCESSOR)) == processor
            &&& dword_at(mem, at(p, PEER_GAMEPLAY)) == gameplay
            &&& dword_at(mem, p) == first
        } by {}
    }
    let changed = String::from_str("Peer changing");
    match read_u64(recheck, offset(lobby, PEER_LIST)) {
        Ok(v) => if v != list {
            return Err(changed);
        },
        Err(e) => return Err(e),
    }
    match read_u32(recheck, offset(lobby, PEER_COUNT)) {
        Ok(v) => if v != count {
            return Err(changed);
        },
        Err(e) => return Err(e),
    }
    match read_u64(recheck, offset(p, PEER_PROCESSOR)) {
        Ok(v) => if v != processor {
            return Err(changed);
        },
        Err(e) => return Err(e),
    }
    match read_u32(recheck, offset(p, PEER_CONNECTION)) {
        Ok(v) => if v != 2 {
            return Err(changed);
        },
        Err(e) => return Err(e),
    }
    match read_u32(recheck, offset(p, PEER_GAMEPLAY)) {
        Ok(v) => if v != gameplay {
            return Err(changed);
        },
        Err(e) => return Err(e),
    }
    match read_u32(recheck, p) {
        Ok(v) => if v != first {
            return Err(changed);
        },
        Err(e) => return Err(e),
    }
    match read_u8(recheck, offset(root, ROLE_FLAG)) {
        Ok(v) => if v != role {
            return Err(changed);
        },
        Err(e) => return Err(e),
    }
    if role == 0 {
        match read_u32(recheck, host_index_address) {
            Ok(v) => if v as i32 != host_index {
                return Err(changed);
            },
            Err(e) => return Err(e),
        }
    }
    match read_u64(recheck, offset(base, GAME_POINTER)) {
        Ok(v) => if v != root {
            return Err(changed);
        },
        Err(e) => return Err(e),
    }
    Ok(reading)
}

} // verus!

verus! {

/// Nanoseconds of a second.
pub const SECOND_NS: u64 = 1_000_000_000;

/// How long a ping measurement stays current.
pub const PING_FRESH_NS: u64 = 10_000_000_000;

/// Number of round-trip-time differences kept.
pub const VARIATION_WINDOW: usize = 20;

/// Highest plausible byte rate per second; above it a counter reading is discarded.
pub const BYTE_RATE_LIMIT: u64 = 100_000_000;

/// Highest plausible packet rate per second.
pub const PACKET_RATE_LIMIT: u64 = 100_000;

/// Counter differences over a sampling interval of at least a second.
#[derive(Clone, Copy, Debug, PartialEq, Eq)]
pub struct Rates {
    pub tx_bytes: u32,
    pub rx_bytes: u32,
    pub tx_packets: u32,
    pub elapsed_ns: u64,
}

/// What one network reading shows.
#[derive(Clone, Copy, Debug, PartialEq, Eq)]
pub struct NetworkReport {
    /// The round-trip time, while its measurement is current.
    pub ping: Option<i32>,
    /// Sum and number of the kept round-trip-time differences; the number is 0
    /// when there are none or no current ping.
    pub variation_sum: u64,
    pub variation_count: usize,
    /// Counter differences, once an interval of a second has been sampled.
    pub rates: Option<Rates>,
    /// Time since the received-bytes counter was last seen to move.
    pub rx_idle_ns: u64,
}

/// Time from `then` to `now`, zero when `now` is earlier (`Instant::duration_since`).
pub open spec fn elapsed(now: u64, then: u64) -> u64 {
    if now >= then {
        (now - then) as u64
    } else {
        0
    }
}

/// The increase of a wrapping 32-bit counter.
pub open spec fn counter_diff(new: u32, old: u32) -> u32 {
    if new >= old {
        (new - old) as u32
    } else {
        (new + 0x1_0000_0000int - old) as u32
    }
}

/// Whether an increase over `elapsed_ns` stays within `limit` per second: no
/// rate is defined over an empty interval.
pub open spec fn within_rate(diff: u32, elapsed_ns: u64, limit: u64) -> bool {
    elapsed_ns > 0 && diff * SECOND_NS <= limit * elapsed_ns
}

/// The counter differences between two samples, none when a rate is implausible.
pub open spec fn rates_between(old: PeerSample, new: PeerSample, elapsed_ns: u64) -> Option<Rates> {
    let tx = counter_diff(new.tx, old.tx);
    let rx = counter_diff(new.rx, old.rx);
    let packets = counter_diff(new.packets, old.packets);
    if within_rate(tx, elapsed_ns, BYTE_RATE_LIMIT) && within_rate(rx, elapsed_ns, BYTE_RATE_LIMIT)
        && within_rate(packets, elapsed_ns, PACKET_RATE_LIMIT) {
        Some(Rates { tx_bytes: tx, rx_bytes: rx, tx_packets: packets, elapsed_ns })
    } else {
        None
    }
}

/// Whether two samples come from the same peer.
pub open spec fn same_peer(a: PeerSample, b: PeerSample) -> bool {
    a.key == b.key
}

/// The state of a monitor by plain values.
pub struct MonitorView {
    pub previous: Option<(PeerSample, u64)>,
    pub last_rx: Option<u64>,
    pub ping: Option<(i32, u64)>,
    pub variation: Seq<u32>,
    pub rates: Option<Rates>,
    pub observed: Option<PeerSample>,
}

/// The state of a monitor that has seen nothing.
pub open spec fn fresh_monitor() -> MonitorView {
    MonitorView {
        previous: None,
        last_rx: None,
        ping: None,
        variation: Seq::empty(),
        rates: None,
        observed: None,
    }
}

/// Absolute difference of two round-trip times.
pub open spec fn ping_gap(a: i32, b: i32) -> u32 {
    if a >= b {
        (a - b) as u32
    } else {
        (b - a) as u32
    }
}

/// The newest differences, at most `VARIATION_WINDOW` of them.
pub open spec fn keep_window(v: Seq<u32>) -> Seq<u32> {
    if v.len() > VARIATION_WINDOW {
        v.drop_first()
    } else {
        v
    }
}

/// Sum of a sequence of differences.
pub open spec fn sum_of(v: Seq<u32>) -> int
    decreases v.len(),
{
    if v.len() == 0 {
        0
    } else {
        sum_of(v.drop_last()) + v.last()
    }
}

/// The state after a sample, before the report is made of it: a change of peer
/// starts from a fresh state; rates are sampled over intervals of at least a second;
/// a ping counts as a new measurement only when its value or reply time changed.
pub open spec fn monitor_next(m: MonitorView, s: PeerSample, now: u64) -> MonitorView {
    let m0 = match m.previous {
        Some((p, _)) => if !same_peer(p, s) {
            fresh_monitor()
        } else {
            m
        },
        None => m,
    };
    let rates = match m0.previous {
        Some((old, t)) => if elapsed(now, t) >= SECOND_NS {
            rates_between(old, s, elapsed(now, t))
        } else {
            m0.rates
        },
        None => m0.rates,
    };
    let (last_rx, ping, variation) = match m0.observed {
        Some(o) => {
            let last_rx = if s.rx != o.rx {
                Some(now)
            } else {
                m0.last_rx
            };
            match s.ping {
                Some(p) => if s.reply != o.reply || s.ping != o.ping {
                    let variation = match m0.ping {
                        Some((last, _)) => keep_window(m0.variation.push(ping_gap(p, last))),
                        None => m0.variation,
                    };
                    (last_rx, Some((p, now)), variation)
                } else {
                    (last_rx, m0.ping, m0.variation)
                },
                None => (last_rx, m0.ping, m0.variation),
            }
        },
        None => (
            Some(now),
            match s.ping {
                Some(p) => Some((p, now)),
                None => None,
            },
            m0.variation,
        ),
    };
    let previous = match m0.previous {
        Some((_, t)) => if elapsed(now, t) >= SECOND_NS {
            Some((s, now))
        } else {
            m0.previous
        },
        None => Some((s, now)),
    };
    MonitorView { previous, last_rx, ping, variation, rates, observed: Some(s) }
}

/// The report of a state at `now`: a ping older than ten seconds is not shown, and
/// the variation is shown only beside a shown ping.
pub open spec fn monitor_report(m: MonitorView, now: u64) -> NetworkReport {
    let ping = match m.ping {
        Some((p, t)) => if elapsed(now, t) < PING_FRESH_NS {
            Some(p)
        } else {
            None
        },
        None => None,
    };
    let shown = m.variation.len() > 0 && ping is Some;
    NetworkReport {
        ping,
        variation_sum: if shown {
            sum_of(m.variation) as u64
        } else {
            0
        },
        variation_count: if shown {
            m.variation.len() as usize
        } else {
            0
        },
        rates: m.rates,
        rx_idle_ns: match m.last_rx {
            Some(t) => elapsed(now, t),
            None => 0,
        },
    }
}

/// Histories of the selected peer's counters across readings.
pub struct Monitor {
    previous: Option<(PeerSample, u64)>,
    last_rx: Option<u64>,
    ping: Option<(i32, u64)>,
    variation: VecDeque<u32>,
    rates: Option<Rates>,
    observed: Option<PeerSample>,
}

impl View for Monitor {
    type V = MonitorView;

    closed spec fn view(&self) -> MonitorView {
        MonitorView {
            previous: self.previous,
            last_rx: self.last_rx,
            ping: self.ping,
            variation: self.variation@,
            rates: self.rates,
            observed: self.observed,
        }
    }
}

fn elapsed_ns(now: u64, then: u64) -> (res: u64)
    ensures
        res == elapsed(now, then),
{
    now.saturating_sub(then)
}

fn diff_counter(new: u32, old: u32) -> (res: u32)
    ensures
        res == counter_diff(new, old),
{
    new.wrapping_sub(old)
}

fn rate_ok(diff: u32, elapsed_ns: u64, limit: u64) -> (res: bool)
    ensures
        res == within_rate(diff, elapsed_ns, limit),
{
    let l = limit as u128;
    let e = elapsed_ns as u128;
    assert(l * e <= 0xFFFF_FFFF_FFFF_FFFFu128 * 0xFFFF_FFFF_FFFF_FFFFu128) by (nonlinear_arith)
        requires
            l <= 0xFFFF_FFFF_FFFF_FFFFu128,
            e <= 0xFFFF_FFFF_FFFF_FFFFu128,
    ;
    let d = diff as u128;
    assert(d * 1_000_000_000u128 <= 0xFFFF_FFFFu128 * 1_000_000_000u128) by (nonlinear_arith)
        requires
            d <= 0xFFFF_FFFFu128,
    ;
    elapsed_ns > 0 && d * 1_000_000_000u128 <= l * e
}

/// The increase of a wrapping counter over `elapsed_ns`, none when it exceeds
/// `limit` per second.
pub fn delta(new: u32, old: u32, elapsed_ns: u64, limit: u64) -> (res: Option<u32>)
    ensures
        res == if within_rate(counter_diff(new, old), elapsed_ns, limit) {
            Some(counter_diff(new, old))
        } else {
            None::<u32>
        },
{
    let d = diff_counter(new, old);
    if rate_ok(d, elapsed_ns, limit) {
        Some(d)
    } else {
        None
    }
}

/// The counter differences between two samples over `elapsed_ns`, none when a
/// rate is implausible.
pub fn counter_rates(old: &PeerSample, new: &PeerSample, elapsed_ns: u64) -> (res: Option<Rates>)
    ensures
        res == rates_between(*old, *new, elapsed_ns),
{
    match (
        delta(new.tx, old.tx, elapsed_ns, BYTE_RATE_LIMIT),
        delta(new.rx, old.rx, elapsed_ns, BYTE_RATE_LIMIT),
        delta(new.packets, old.packets, elapsed_ns, PACKET_RATE_LIMIT),
    ) {
        (Some(tx), Some(rx), Some(packets)) => Some(
            Rates { tx_bytes: tx, rx_bytes: rx, tx_packets: packets, elapsed_ns },
        ),
        _ => None,
    }
}

fn same_key(a: &PeerSample, b: &PeerSample) -> (res: bool)
    ensures
        res == same_peer(*a, *b),
{
    a.key.0 == b.key.0 && a.key.1 == b.key.1 && a.key.2 == b.key.2 && a.key.3 == b.key.3
}

fn same_ping(a: Option<i32>, b: Option<i32>) -> (res: bool)
    ensures
        res == (a == b),
{
    match (a, b) {
        (Some(x), Some(y)) => x == y,
        (None, None) => true,
        _ => false,
    }
}

fn gap_of(a: i32, b: i32) -> (res: u32)
    ensures
        res == ping_gap(a, b),
{
    if a >= b {
        ((a as i64) - (b as i64)) as u32
    } else {
        ((b as i64) - (a as i64)) as u32
    }
}

impl Monitor {
    /// The bound on the kept differences.
    pub closed spec fn wf(&self) -> bool {
        self.variation@.len() <= VARIATION_WINDOW
    }

    /// A monitor that has seen nothing.
    pub fn new() -> (res: Monitor)
        ensures
            res@ == fresh_monitor(),
            res.wf(),
            res@.variation.len() <= VARIATION_WINDOW,
    {
        Monitor {
            previous: None,
            last_rx: None,
            ping: None,
            variation: VecDeque::new(),
            rates: None,
            observed: None,
        }
    }

    /// Forgets every history.
    pub fn reset(&mut self)
        ensures
            final(self)@ == fresh_monitor(),
            final(self).wf(),
            final(self)@.variation.len() <= VARIATION_WINDOW,
    {
        *self = Monitor::new();
    }

    /// Takes what a reading of the peer gave at `now`: a reading is accepted and
    /// reported; a failed reading forgets every history and gives its error as
    /// the network line, "Network: " and the error.
    pub fn observe(&mut self, reading: Result<PeerReading, String>, now: u64) -> (res: Result<
        NetworkReport,
        String,
    >)
        requires
            old(self).wf(),
        ensures
            final(self).wf(),
            final(self)@.variation.len() <= VARIATION_WINDOW,
            match reading {
                Ok(r) => final(self)@ == monitor_next(old(self)@, r.sample, now) && res == Ok::<
                    NetworkReport,
                    String,
                >(monitor_report(final(self)@, now)),
                Err(e) => final(self)@ == fresh_monitor() && (res matches Err(x) && x@
                    == "Network: "@ + e@),
            },
    {
        match reading {
            Ok(r) => Ok(self.accept(r.sample, now)),
            Err(e) => {
                self.reset();
                let mut line = String::from_str("Network: ");
                line.append(e.as_str());
                Err(line)
            },
        }
    }

    /// Takes a sample read at `now` (nanoseconds of a monotonic clock) and reports.
    pub fn accept(&mut self, s: PeerSample, now: u64) -> (report: NetworkReport)
        requires
            old(self).wf(),
        ensures
            final(self).wf(),
            final(self)@.variation.len() <= VARIATION_WINDOW,
            final(self)@ == monitor_next(old(self)@, s, now),
            report == monitor_report(final(self)@, now),
    {
        let changed = match &self.previous {
            Some((p, _)) => !same_key(p, &s),
            None => false,
        };
        if changed {
            self.reset();
        }
        let mut rates = self.rates;
        if let Some((old, time)) = &self.previous {
            let dt = elapsed_ns(now, *time);
            if dt >= SECOND_NS {
                rates = counter_rates(old, &s, dt);
            }
        }
        let mut last_rx = self.last_rx;
        let mut ping = self.ping;
        let mut variation = self.variation.clone();
        match &self.observed {
            Some(o) => {
                if s.rx != o.rx {
                    last_rx = Some(now);
                }
                if let Some(p) = s.ping {
                    if s.reply != o.reply || !same_ping(s.ping, o.ping) {
                        if let Some((last, _)) = self.ping {
                            variation.push_back(gap_of(p, last));
                            if variation.len() > VARIATION_WINDOW {
                                variation.pop_front();
                            }
                        }
                        ping = Some((p, now));
                    }
                }
            },
            None => {
                last_rx = Some(now);
                ping = match s.ping {
                    Some(p) => Some((p, now)),
                    None => None,
                };
            },
        }
        let previous = match &self.previous {
            Some((_, t)) => if elapsed_ns(now, *t) >= SECOND_NS {
                Some((s, now))
            } else {
                self.previous
            },
            None => Some((s, now)),
        };
        self.previous = previous;
        self.last_rx = last_rx;
        self.ping = ping;
        self.variation = variation;
        self.rates = rates;
        self.observed = Some(s);
        self.report(now)
    }

    fn report(&self, now: u64) -> (res: NetworkReport)
        requires
            self.wf(),
        ensures
            res == monitor_report(self@, now),
    {
        let ping = match self.ping {
            Some((p, t)) => if elapsed_ns(now, t) < PING_FRESH_NS {
                Some(p)
            } else {
                None
            },
            None => None,
        };
        let shown = self.variation.len() > 0 && ping.is_some();
        let mut sum: u64 = 0;
        if shown {
            let mut k: usize = 0;
            while k < self.variation.len()
                invariant
                    k <= self.variation@.len() <= VARIATION_WINDOW,
                    sum == sum_of(self.variation@.subrange(0, k as int)),
                    sum <= k * 0xFFFF_FFFFu64,
                decreases self.variation@.len() - k,
            {
                proof {
                    let pre = self.variation@.subrange(0, k as int + 1);
                    assert(pre.drop_last() =~= self.variation@.subrange(0, k as int));
                }
                sum = sum + self.variation[k] as u64;
                k = k + 1;
            }
            proof {
                assert(self.variation@.subrange(0, self.variation@.len() as int) =~= self.variation@);
            }
        }
        NetworkReport {
            ping,
            variation_sum: sum,
            variation_count: if shown {
                self.variation.len()
            } else {
                0
            },
            rates: self.rates,
            rx_idle_ns: match self.last_rx {
                Some(t) => elapsed_ns(now, t),
                None => 0,
            },
        }
    }
}

} // verus!

verus! {

/// Histories reset when the peer changes: a sample of another peer is taken as
/// by a monitor that has seen nothing.
pub proof fn lemma_peer_change_resets(m: MonitorView, s: PeerSample, now: u64)
    requires
        m.previous matches Some((p, _)) && !same_peer(p, s),
    ensures
        monitor_next(m, s, now) == monitor_next(fresh_monitor(), s, now),
        monitor_next(m, s, now).rates is None,
        monitor_next(m, s, now).variation.len() == 0,
{
}

/// A poll that shows the same round-trip time and reply time as the last one is
/// not a new ping measurement.
pub proof fn lemma_unchanged_poll_keeps_ping(m: MonitorView, s: PeerSample, now: u64)
    requires
        m.observed matches Some(o) && o.reply == s.reply && o.ping == s.ping,
        m.previous matches Some((p, _)) && same_peer(p, s),
    ensures
        monitor_next(m, s, now).ping == m.ping,
        monitor_next(m, s, now).variation == m.variation,
{
}

/// At most the last twenty round-trip-time differences are kept.
pub proof fn lemma_variation_window(m: MonitorView, s: PeerSample, now: u64)
    requires
        m.variation.len() <= VARIATION_WINDOW,
    ensures
        monitor_next(m, s, now).variation.len() <= VARIATION_WINDOW,
{
}

/// A ping measured ten seconds or more ago is not shown, and neither is the
/// variation beside it.
pub proof fn lemma_stale_ping_hidden(m: MonitorView, now: u64)
    requires
        m.ping matches Some((_, t)) && elapsed(now, t) >= PING_FRESH_NS,
    ensures
        monitor_report(m, now).ping is None,
        monitor_report(m, now).variation_count == 0,
{
}

/// Rates are sampled over at least a second: a sample less than a second after
/// the previous one leaves the rates and the previous sample as they were.
pub proof fn lemma_rates_need_a_second(m: MonitorView, s: PeerSample, now: u64)
    requires
        m.previous matches Some((p, t)) && same_peer(p, s) && elapsed(now, t) < SECOND_NS,
    ensures
        monitor_next(m, s, now).rates == m.rates,
        monitor_next(m, s, now).previous == m.previous,
{
}

/// A sample of the same peer taken a second or more after the kept previous
/// sample becomes the previous sample, and the rates it reports are the counter
/// differences over exactly that interval.
pub proof fn lemma_rates_over_the_last_interval(m: MonitorView, s: PeerSample, now: u64)
    requires
        m.previous matches Some((p, t)) && same_peer(p, s) && elapsed(now, t) >= SECOND_NS,
    ensures
        monitor_next(m, s, now).previous == Some((s, now)),
        m.previous matches Some((p, t)) && monitor_next(m, s, now).rates == rates_between(
            p,
            s,
            elapsed(now, t),
        ),
{
}

/// Over polls of one peer that are each a second or more apart, starting from a
/// monitor that has seen nothing, the rates of the third poll are the differences
/// from the second poll to the third over the time between them, not an average
/// since the first poll.
pub proof fn lemma_rates_follow_the_polls(
    s0: PeerSample,
    t0: u64,
    s1: PeerSample,
    t1: u64,
    s2: PeerSample,
    t2: u64,
)
    requires
        same_peer(s0, s1),
        same_peer(s1, s2),
        elapsed(t1, t0) >= SECOND_NS,
        elapsed(t2, t1) >= SECOND_NS,
    ensures
        ({
            let m = monitor_next(
                monitor_next(monitor_next(fresh_monitor(), s0, t0), s1, t1),
                s2,
                t2,
            );
            &&& m.previous == Some((s2, t2))
            &&& m.rates == rates_between(s1, s2, elapsed(t2, t1))
            &&& m.rates matches Some(r) ==> r.elapsed_ns == elapsed(t2, t1) && r.tx_bytes
                == counter_diff(s2.tx, s1.tx) && r.rx_bytes == counter_diff(s2.rx, s1.rx)
                && r.tx_packets == counter_diff(s2.packets, s1.packets)
        }),
{
    let m1 = monitor_next(fresh_monitor(), s0, t0);
    assert(m1.previous == Some((s0, t0)));
    lemma_rates_over_the_last_interval(m1, s1, t1);
    let m2 = monitor_next(m1, s1, t1);
    lemma_rates_over_the_last_interval(m2, s2, t2);
}

/// A host's peer is the one active peer: it is active, and no other is.
pub proof fn lemma_host_peer_is_the_only_active_one(host_index: i32, states: Seq<(u32, u32)>, i: int)
    requires
        peer_choice(true, host_index, states) == Ok::<int, Seq<char>>(i),
    ensures
        0 <= i < states.len(),
        is_active(states[i]),
        forall|j: int| 0 <= j < states.len() && j != i ==> !is_active(#[trigger] states[j]),
{
    lemma_active_indices(states);
    let act = active_indices(states);
    assert(act[0] == i);
    assert forall|j: int| 0 <= j < states.len() && j != i implies !is_active(#[trigger] states[j]) by {
        if is_active(states[j]) {
            assert(act.contains(j));
        }
    }
}

/// An invader's peer is the indexed host, never another one.
pub proof fn lemma_invader_peer_is_the_indexed_host(
    host_index: i32,
    states: Seq<(u32, u32)>,
    i: int,
)
    requires
        peer_choice(false, host_index, states) == Ok::<int, Seq<char>>(i),
    ensures
        i == host_index,
        states[i].0 == 2,
{
}

} // verus!
