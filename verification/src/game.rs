//! Roles, opponent snapshots and how they read on the overlay.
use crate::memory::{
    answers_from, at, byte_answer, byte_at, dword_answer, dword_at, offset, qword_answer,
    qword_at, read_string, read_u32, read_u64, read_u8, reader_error, reader_ready, reads_from,
    string_answer, string_at, Image, Width,
};
use crate::text::{
    chars_of, decimal, has_control, is_control, lemma_trim_idempotent, push_decimal, string_from_chars,
    trim, trim_chars,
};
use vstd::prelude::*;
use vstd::string::*;

verus! {

/// Which side of an invasion the local player is on.
#[derive(Clone, Copy, Debug, PartialEq, Eq, Structural)]
pub enum Role {
    Host,
    Invader,
}

/// What the overlay calls the other player of a role.
pub open spec fn label_of(role: Role) -> Seq<char> {
    match role {
        Role::Host => "Invader"@,
        Role::Invader => "Host"@,
    }
}

/// Offset from the module base of the name buffer of the other player.
pub open spec fn name_rva_of(role: Role) -> u64 {
    match role {
        Role::Host => 0x3334F68,
        Role::Invader => 0x3335638,
    }
}

/// The role that a host/client flag byte denotes, if any.
pub open spec fn role_of_flag(v: u8) -> Option<Role> {
    if v == 0 {
        Some(Role::Invader)
    } else if v == 1 {
        Some(Role::Host)
    } else {
        None
    }
}

impl Role {
    /// The label of the opponent: a host faces an invader and an invader a host.
    pub fn opponent_label(self) -> (res: &'static str)
        ensures
            res@ == label_of(self),
    {
        match self {
            Role::Host => "Invader",
            Role::Invader => "Host",
        }
    }

    /// Offset of the buffer that holds the opponent's name.
    pub fn opponent_name_rva(self) -> (res: u64)
        ensures
            res == name_rva_of(self),
    {
        match self {
            Role::Host => 0x3334F68,
            Role::Invader => 0x3335638,
        }
    }

    /// Decodes the host/client flag: `1` is the host, `0` the invader.
    pub fn from_flag(v: u8) -> (res: Result<Role, String>)
        ensures
            match role_of_flag(v) {
                Some(r) => res == Ok::<Role, String>(r),
                None => res matches Err(e) && e@ == "Invalid host/client flag"@,
            },
    {
        match v {
            0 => Ok(Role::Invader),
            1 => Ok(Role::Host),
            _ => Err(String::from_str("Invalid host/client flag")),
        }
    }
}

/// One reading of who the opponent is.
#[derive(Debug)]
pub struct OpponentSnapshot {
    pub role: Role,
    pub name: Option<String>,
    pub player_count: usize,
    pub host_day: Option<i32>,
}

/// The name of a snapshot as characters.
pub open spec fn name_chars(name: Option<String>) -> Option<Seq<char>> {
    match name {
        Some(n) => Some(n@),
        None => None,
    }
}

/// The overlay line for an opponent: the host's campaign day is shown only to an
/// invader who sees a name; without a name the line says that it waits.
pub open spec fn display_text(role: Role, name: Option<Seq<char>>, day: Option<i32>) -> Seq<char> {
    match name {
        Some(n) => match (role, day) {
            (Role::Invader, Some(d)) => "Host: "@ + n + " | Day "@ + decimal(d as int),
            _ => label_of(role) + ": "@ + n,
        },
        None => label_of(role) + ": waiting for opponent"@,
    }
}

impl OpponentSnapshot {
    /// The overlay line for this snapshot.
    pub fn display(&self) -> (res: String)
        ensures
            res@ == display_text(self.role, name_chars(self.name), self.host_day),
    {
        match &self.name {
            Some(n) => match (self.role, self.host_day) {
                (Role::Invader, Some(day)) => {
                    let mut s = String::from_str("Host: ");
                    s.append(n.as_str());
                    s.append(" | Day ");
                    push_decimal(&mut s, day);
                    s
                },
                _ => {
                    let mut s = String::from_str(self.role.opponent_label());
                    s.append(": ");
                    s.append(n.as_str());
                    s
                },
            },
            None => {
                let mut s = String::from_str(self.role.opponent_label());
                s.append(": waiting for opponent");
                s
            },
        }
    }
}

} // verus!

verus! {

/// Module offset of the pointer to the game object.
pub const GAME_POINTER: u64 = 0x5BD1010;

/// Module offset of the vtable that the supported game object has.
pub const GAME_VTABLE: u64 = 0x2613250;

/// Game offset of the host/client flag.
pub const ROLE_FLAG: u64 = 0x6A730;

/// Game offset of the pointer to the player-ID list.
pub const PLAYER_LIST: u64 = 0x210;

/// Game offset of the number of player IDs.
pub const PLAYER_COUNT: u64 = 0x21C;

/// Game offset of the pointer to the campaign manager.
pub const CAMPAIGN: u64 = 0x34D8;

/// Module offset of the vtable that the campaign manager has.
pub const CAMPAIGN_VTABLE: u64 = 0x2693B50;

/// Campaign-manager offset of the campaign day.
pub const CAMPAIGN_DAY: u64 = 0x80;

/// Bytes of a name buffer.
pub const NAME_LEN: usize = 32;

/// A snapshot by plain values.
pub struct OpponentView {
    pub role: Role,
    pub name: Option<Seq<char>>,
    pub player_count: nat,
    pub host_day: Option<i32>,
}

impl View for OpponentSnapshot {
    type V = OpponentView;

    open spec fn view(&self) -> OpponentView {
        OpponentView {
            role: self.role,
            name: name_chars(self.name),
            player_count: self.player_count as nat,
            host_day: self.host_day,
        }
    }
}

/// A reading of the opponent by plain values.
pub open spec fn snapshot_result(r: Result<OpponentSnapshot, String>) -> Result<
    OpponentView,
    Seq<char>,
> {
    match r {
        Ok(s) => Ok(s@),
        Err(e) => Err(e@),
    }
}

/// An entry of the player-ID list that denotes a player.
pub open spec fn is_player_id(id: u64) -> bool {
    id != u64::MAX && id != 0
}

/// The distinct player IDs of a list, in the order of first occurrence.
pub open spec fn loaded_players(ids: Seq<u64>) -> Seq<u64>
    decreases ids.len(),
{
    if ids.len() == 0 {
        Seq::empty()
    } else {
        let p = loaded_players(ids.drop_last());
        let x = ids.last();
        if is_player_id(x) && !p.contains(x) {
            p.push(x)
        } else {
            p
        }
    }
}

/// The `count` entries of the player-ID list at `list`.
pub open spec fn ids_at(mem: Image, list: u64, count: nat) -> Seq<u64> {
    Seq::new(count, |i: int| qword_at(mem, at(list, (i * 8) as u64)))
}

/// A name as the overlay shows it: trimmed; none when it is empty or holds a
/// control character.
pub open spec fn clean_name(text: Seq<char>) -> Option<Seq<char>> {
    let t = trim(text);
    if t.len() == 0 || exists|k: int| 0 <= k < t.len() && is_control(#[trigger] t[k]) {
        None
    } else {
        Some(t)
    }
}

/// What the campaign manager of `game` says of the host's campaign day: the day
/// when the manager is there and the day is not negative. A missing manager is
/// "Campaign unavailable"; a negative day is taken for one being written,
/// "Campaign changing".
pub open spec fn campaign_at(mem: Image, base: u64, game: u64) -> Result<i32, Seq<char>> {
    let manager = qword_at(mem, at(game, CAMPAIGN));
    if manager < 0x10000 || qword_at(mem, manager) != at(base, CAMPAIGN_VTABLE) {
        Err("Campaign unavailable"@)
    } else {
        let day = dword_at(mem, at(manager, CAMPAIGN_DAY)) as i32;
        if day < 0 {
            Err("Campaign changing"@)
        } else {
            Ok(day)
        }
    }
}

/// The host's campaign day that the campaign manager of `game` holds, when it is
/// there and not negative.
pub open spec fn campaign_day_at(mem: Image, base: u64, game: u64) -> Option<i32> {
    match campaign_at(mem, base, game) {
        Ok(d) => Some(d),
        Err(_) => None,
    }
}

/// A campaign-day reading by plain values.
pub open spec fn day_result(r: Result<i32, String>) -> Result<i32, Seq<char>> {
    match r {
        Ok(d) => Ok(d),
        Err(e) => Err(e@),
    }
}

/// What a memory image of the game says of the opponent.
pub open spec fn opponent_at(mem: Image, base: u64) -> Result<OpponentView, Seq<char>> {
    let game = qword_at(mem, at(base, GAME_POINTER));
    if game < 0x10000 || qword_at(mem, game) != at(base, GAME_VTABLE) {
        Err("Waiting for a supported game session"@)
    } else {
        match role_of_flag(byte_at(mem, at(game, ROLE_FLAG))) {
            None => Err("Invalid host/client flag"@),
            Some(role) => {
                let list = qword_at(mem, at(game, PLAYER_LIST));
                let count = dword_at(mem, at(game, PLAYER_COUNT));
                if count > 4 || (count > 0 && list < 0x10000) {
                    Err("Player list unavailable"@)
                } else {
                    let ids = loaded_players(ids_at(mem, list, count as nat));
                    let text = string_at(mem, at(base, name_rva_of(role)), NAME_LEN as nat);
                    if ids.len() >= 2 && text is Err {
                        Err(text->Err_0)
                    } else {
                        let name = if ids.len() >= 2 {
                            clean_name(text->Ok_0)
                        } else {
                            None
                        };
                        let host_day = if role == Role::Invader && name is Some {
                            campaign_day_at(mem, base, game)
                        } else {
                            None
                        };
                        Ok(OpponentView { role, name, player_count: ids.len(), host_day })
                    }
                }
            },
        }
    }
}

/// What holds of every snapshot that a read gives, whatever the memory did.
pub open spec fn snapshot_consistent(s: OpponentView) -> bool {
    &&& s.player_count <= 4
    &&& s.name is Some ==> s.player_count >= 2
    &&& s.name matches Some(n) ==> clean_name(n) == Some(n)
    &&& s.host_day matches Some(d) ==> s.role == Role::Invader && s.name is Some && d >= 0
}

fn contains_id(ids: &Vec<u64>, x: u64) -> (res: bool)
    ensures
        res == ids@.contains(x),
{
    let mut k: usize = 0;
    while k < ids.len()
        invariant
            k <= ids.len(),
            forall|m: int| 0 <= m < k ==> ids@[m] != x,
        decreases ids.len() - k,
    {
        if ids[k] == x {
            return true;
        }
        k = k + 1;
    }
    false
}

/// The entries of the player-ID list from entry `i` on, as a reader that answers
/// as `ans` gives them; the first failed read ends them with its error.
pub open spec fn ids_answer(
    ans: spec_fn(u64, Width) -> Result<u64, String>,
    list: u64,
    count: nat,
    i: nat,
) -> Result<Seq<u64>, Seq<char>>
    decreases count - i,
{
    if i >= count {
        Ok(Seq::empty())
    } else {
        match qword_answer(ans, at(list, (i * 8) as u64)) {
            Err(e) => Err(e@),
            Ok(id) => match ids_answer(ans, list, count, i + 1) {
                Ok(t) => Ok(seq![id] + t),
                Err(e) => Err(e),
            },
        }
    }
}

/// Entries already read in front of the rest of the list.
pub open spec fn ids_prefixed(b: Seq<u64>, r: Result<Seq<u64>, Seq<char>>) -> Result<
    Seq<u64>,
    Seq<char>,
> {
    match r {
        Ok(t) => Ok(b + t),
        Err(e) => Err(e),
    }
}

/// The distinct players of the list, as a reader that answers as `ans` gives it.
pub open spec fn players_answer(
    ans: spec_fn(u64, Width) -> Result<u64, String>,
    list: u64,
    count: nat,
) -> Result<Seq<u64>, Seq<char>> {
    match ids_answer(ans, list, count, 0) {
        Ok(raw) => Ok(loaded_players(raw)),
        Err(e) => Err(e),
    }
}

/// A list of IDs by plain values.
pub open spec fn ids_result(r: Result<Vec<u64>, String>) -> Result<Seq<u64>, Seq<char>> {
    match r {
        Ok(v) => Ok(v@),
        Err(e) => Err(e@),
    }
}

/// Reads the `count` entries of the player-ID list and keeps the distinct IDs.
fn read_player_ids<F: Fn(u64, Width) -> Result<u64, String>>(
    read: &F,
    list: u64,
    count: u32,
) -> (res: Result<Vec<u64>, String>)
    requires
        reader_ready(*read),
    ensures
        forall|mem: Image| #[trigger]
            reads_from(*read, mem) ==> (res matches Ok(ids) && ids@ == loaded_players(
                ids_at(mem, list, count as nat),
            )),
        forall|ans: spec_fn(u64, Width) -> Result<u64, String>| #[trigger]
            answers_from(*read, ans) ==> ids_result(res) == players_answer(ans, list, count as nat),
        res matches Ok(ids) ==> ids@.len() <= count,
        res matches Err(e) ==> reader_error(*read, e),
{
    let mut ids: Vec<u64> = Vec::new();
    let ghost mut raw: Seq<u64> = Seq::empty();
    let mut i: u32 = 0;
    proof {
        assert forall|ans: spec_fn(u64, Width) -> Result<u64, String>| #[trigger]
            answers_from(*read, ans) implies ids_answer(ans, list, count as nat, 0) == ids_prefixed(
            raw,
            ids_answer(ans, list, count as nat, 0),
        ) by {
            match ids_answer(ans, list, count as nat, 0) {
                Ok(t) => {
                    assert(raw + t =~= t);
                },
                Err(_) => {},
            }
        }
    }
    while i < count
        invariant
            reader_ready(*read),
            i <= count,
            ids@.len() <= i,
            raw.len() == i,
            ids@ == loaded_players(raw),
            forall|mem: Image| #[trigger]
                reads_from(*read, mem) ==> ids@ == loaded_players(ids_at(mem, list, i as nat)),
            forall|ans: spec_fn(u64, Width) -> Result<u64, String>| #[trigger]
                answers_from(*read, ans) ==> ids_answer(ans, list, count as nat, 0) == ids_prefixed(
                    raw,
                    ids_answer(ans, list, count as nat, i as nat),
                ),
        decreases count - i,
    {
        let a = offset(list, (i as u64) * 8);
        let id = match read_u64(read, a) {
            Ok(v) => v,
            Err(e) => {
                proof {
                    assert forall|ans: spec_fn(u64, Width) -> Result<u64, String>| #[trigger]
                        answers_from(*read, ans) implies ids_result(Err::<Vec<u64>, String>(e))
                        == players_answer(ans, list, count as nat) by {
                        assert(qword_answer(ans, at(list, (i * 8) as u64)) == Err::<u64, String>(
                            e,
                        ));
                        assert(ids_answer(ans, list, count as nat, i as nat) == Err::<
                            Seq<u64>,
                            Seq<char>,
                        >(e@));
                    }
                }
                return Err(e);
            },
        };
        let seen = contains_id(&ids, id);
        let ghost old_ids = ids@;
        let ghost old_raw = raw;
        if id != u64::MAX && id != 0 && !seen {
            ids.push(id);
        }
        proof {
            raw = raw.push(id);
            assert(raw.drop_last() =~= old_raw);
            assert forall|mem: Image| #[trigger]
                reads_from(*read, mem) implies ids@ == loaded_players(
                ids_at(mem, list, (i + 1) as nat),
            ) by {
                let s = ids_at(mem, list, (i + 1) as nat);
                assert(s.drop_last() =~= ids_at(mem, list, i as nat));
                assert(s.last() == id);
            }
            assert forall|ans: spec_fn(u64, Width) -> Result<u64, String>| #[trigger]
                answers_from(*read, ans) implies ids_answer(ans, list, count as nat, 0)
                == ids_prefixed(raw, ids_answer(ans, list, count as nat, (i + 1) as nat)) by {
                assert(qword_answer(ans, at(list, (i * 8) as u64)) == Ok::<u64, String>(id));
                match ids_answer(ans, list, count as nat, (i + 1) as nat) {
                    Ok(t) => {
                        assert(old_raw + (seq![id] + t) =~= raw + t);
                    },
                    Err(_) => {},
                }
            }
        }
        i = i + 1;
    }
    proof {
        assert forall|ans: spec_fn(u64, Width) -> Result<u64, String>| #[trigger]
            answers_from(*read, ans) implies ids_result(Ok::<Vec<u64>, String>(ids))
            == players_answer(ans, list, count as nat) by {
            assert(ids_answer(ans, list, count as nat, count as nat) == Ok::<Seq<u64>, Seq<char>>(
                Seq::empty(),
            ));
            assert(raw + Seq::<u64>::empty() =~= raw);
        }
    }
    Ok(ids)
}

/// A name as the overlay shows it, from the decoded buffer text.
pub fn clean_name_text(text: &String) -> (res: Option<String>)
    ensures
        name_chars(res) == clean_name(text@),
{
    let cs = chars_of(text.as_str());
    let t = trim_chars(&cs);
    if t.len() == 0 || has_control(&t) {
        None
    } else {
        Some(string_from_chars(t.as_slice()))
    }
}

/// What a reading of the campaign day gives when its reads are answered as `ans`
/// says and the closing re-read of the manager pointer as `again` says: the first
/// failed read ends it with that read's error; a missing manager is "Campaign
/// unavailable"; a negative day, or a manager pointer that changed by the re-read,
/// is "Campaign changing".
pub open spec fn campaign_answer(
    ans: spec_fn(u64, Width) -> Result<u64, String>,
    again: spec_fn(u64, Width) -> Result<u64, String>,
    base: u64,
    game: u64,
) -> Result<i32, Seq<char>> {
    match qword_answer(ans, at(game, CAMPAIGN)) {
        Err(e) => Err(e@),
        Ok(manager) => if manager < 0x10000 {
            Err("Campaign unavailable"@)
        } else {
            match qword_answer(ans, manager) {
                Err(e) => Err(e@),
                Ok(vtable) => if vtable != at(base, CAMPAIGN_VTABLE) {
                    Err("Campaign unavailable"@)
                } else {
                    match dword_answer(ans, at(manager, CAMPAIGN_DAY)) {
                        Err(e) => Err(e@),
                        Ok(raw) => if (raw as i32) < 0 {
                            Err("Campaign changing"@)
                        } else {
                            match qword_answer(again, at(game, CAMPAIGN)) {
                                Err(e) => Err(e@),
                                Ok(m) => if m != manager {
                                    Err("Campaign changing"@)
                                } else {
                                    Ok(raw as i32)
                                },
                            }
                        },
                    }
                },
            }
        },
    }
}

/// Reads the host's campaign day from the campaign manager of `game`; the manager
/// pointer is read again through `recheck` at the end, and a change is
/// "Campaign changing". A caller that reads live memory passes the same reader
/// twice.
pub fn host_campaign_day<F: Fn(u64, Width) -> Result<u64, String>, G: Fn(u64, Width) -> Result<
    u64,
    String,
>>(read: &F, recheck: &G, base: u64, game: u64) -> (res: Result<i32, String>)
    requires
        reader_ready(*read),
        reader_ready(*recheck),
    ensures
        forall|
            ans: spec_fn(u64, Width) -> Result<u64, String>,
            again: spec_fn(u64, Width) -> Result<u64, String>,
        |
            #![trigger answers_from(*read, ans), answers_from(*recheck, again)]
            answers_from(*read, ans) && answers_from(*recheck, again) ==> day_result(res)
                == campaign_answer(ans, again, base, game),
        forall|mem: Image|
            #![trigger reads_from(*read, mem), reads_from(*recheck, mem)]
            reads_from(*read, mem) && reads_from(*recheck, mem) ==> day_result(res)
                == campaign_at(mem, base, game),
        res matches Ok(d) ==> d >= 0,
        res matches Err(e) ==> e@ == "Campaign unavailable"@ || e@ == "Campaign changing"@
            || reader_error(*read, e) || reader_error(*recheck, e),
{
    let manager = match read_u64(read, offset(game, CAMPAIGN)) {
        Ok(v) => v,
        Err(e) => return Err(e),
    };
    if manager < 0x10000 {
        return Err(String::from_str("Campaign unavailable"));
    }
    let vtable = match read_u64(read, manager) {
        Ok(v) => v,
        Err(e) => return Err(e),
    };
    if vtable != offset(base, CAMPAIGN_VTABLE) {
        return Err(String::from_str("Campaign unavailable"));
    }
    let raw = match read_u32(read, offset(manager, CAMPAIGN_DAY)) {
        Ok(v) => v,
        Err(e) => return Err(e),
    };
    let day = raw as i32;
    if day < 0 {
        return Err(String::from_str("Campaign changing"));
    }
    let again = match read_u64(recheck, offset(game, CAMPAIGN)) {
        Ok(v) => v,
        Err(e) => return Err(e),
    };
    if again != manager {
        return Err(String::from_str("Campaign changing"));
    }
    Ok(day)
}

} // verus!

verus! {

/// The errors that a reading of the opponent can end in besides a failed read.
pub open spec fn opponent_error(e: Seq<char>) -> bool {
    ||| e == "Waiting for a supported game session"@
    ||| e == "Invalid host/client flag"@
    ||| e == "Player list unavailable"@
    ||| e == "Unterminated name buffer"@
    ||| e == "Session changing"@
}

/// The opponent's name, as a reader that answers as `ans` gives it: read only
/// once two players are loaded, and then cleaned.
pub open spec fn name_answer(
    ans: spec_fn(u64, Width) -> Result<u64, String>,
    base: u64,
    role: Role,
    players: nat,
) -> Result<Option<Seq<char>>, Seq<char>> {
    if players >= 2 {
        match string_answer(ans, at(base, name_rva_of(role)), NAME_LEN as nat) {
            Err(e) => Err(e),
            Ok(t) => Ok(clean_name(t)),
        }
    } else {
        Ok(None)
    }
}

/// The closing reads of the session header, answered as `again` says: in order
/// the game pointer, the role flag, the player list and the player count; the
/// first that fails ends them with its error, and the first that differs from
/// what was read before is "Session changing".
pub open spec fn header_answer(
    again: spec_fn(u64, Width) -> Result<u64, String>,
    base: u64,
    game: u64,
    flag: u8,
    list: u64,
    count: u32,
) -> Result<(), Seq<char>> {
    match qword_answer(again, at(base, GAME_POINTER)) {
        Err(e) => Err(e@),
        Ok(g) => if g != game {
            Err("Session changing"@)
        } else {
            match byte_answer(again, at(game, ROLE_FLAG)) {
                Err(e) => Err(e@),
                Ok(f) => if f != flag {
                    Err("Session changing"@)
                } else {
                    match qword_answer(again, at(game, PLAYER_LIST)) {
                        Err(e) => Err(e@),
                        Ok(l) => if l != list {
                            Err("Session changing"@)
                        } else {
                            match dword_answer(again, at(game, PLAYER_COUNT)) {
                                Err(e) => Err(e@),
                                Ok(c) => if c != count {
                                    Err("Session changing"@)
                                } else {
                                    Ok(())
                                },
                            }
                        },
                    }
                },
            }
        },
    }
}

/// The opponent once the session header, role flag, list and count are read.
pub open spec fn opponent_rest_answer(
    ans: spec_fn(u64, Width) -> Result<u64, String>,
    again: spec_fn(u64, Width) -> Result<u64, String>,
    base: u64,
    game: u64,
    flag: u8,
    role: Role,
    list: u64,
    count: u32,
) -> Result<OpponentView, Seq<char>> {
    match players_answer(ans, list, count as nat) {
        Err(e) => Err(e),
        Ok(ids) => match name_answer(ans, base, role, ids.len()) {
            Err(e) => Err(e),
            Ok(name) => {
                let host_day = if role == Role::Invader && name is Some {
                    match campaign_answer(ans, again, base, game) {
                        Ok(d) => Some(d),
                        Err(_) => None,
                    }
                } else {
                    None
                };
                match header_answer(again, base, game, flag, list, count) {
                    Err(e) => Err(e),
                    Ok(_) => Ok(OpponentView { role, name, player_count: ids.len(), host_day }),
                }
            },
        },
    }
}

/// What a reading of the opponent gives when its reads are answered as `ans`
/// says and its closing re-reads as `again` says. The reads come in the order of
/// `opponent_at`, and the first that fails ends the reading with its error, but
/// for the campaign day, whose failure leaves the day out. A session header that
/// changed by the re-reads is "Session changing".
pub open spec fn opponent_answer(
    ans: spec_fn(u64, Width) -> Result<u64, String>,
    again: spec_fn(u64, Width) -> Result<u64, String>,
    base: u64,
) -> Result<OpponentView, Seq<char>> {
    match qword_answer(ans, at(base, GAME_POINTER)) {
        Err(e) => Err(e@),
        Ok(game) => if game < 0x10000 {
            Err("Waiting for a supported game session"@)
        } else {
            match qword_answer(ans, game) {
                Err(e) => Err(e@),
                Ok(vtable) => if vtable != at(base, GAME_VTABLE) {
                    Err("Waiting for a supported game session"@)
                } else {
                    match byte_answer(ans, at(game, ROLE_FLAG)) {
                        Err(e) => Err(e@),
                        Ok(flag) => match role_of_flag(flag) {
                            None => Err("Invalid host/client flag"@),
                            Some(role) => match qword_answer(ans, at(game, PLAYER_LIST)) {
                                Err(e) => Err(e@),
                                Ok(list) => match dword_answer(ans, at(game, PLAYER_COUNT)) {
                                    Err(e) => Err(e@),
                                    Ok(count) => if count > 4 || (count > 0 && list < 0x10000) {
                                        Err("Player list unavailable"@)
                                    } else {
                                        opponent_rest_answer(
                                            ans,
                                            again,
                                            base,
                                            game,
                                            flag,
                                            role,
                                            list,
                                            count,
                                        )
                                    },
                                },
                            },
                        },
                    }
                },
            }
        },
    }
}

/// Reads who the opponent is from the game whose module is loaded at `base`.
///
/// A name is reported only once two distinct players are loaded, because the
/// name buffers keep the name of the last match. The host's campaign day is
/// read only for an invader who sees a name, and a failure there only leaves the
/// day out. Any other failed read ends the reading with its error. The session
/// header is then read again through `recheck`, and a change makes the reading
/// "Session changing". Memory reads are no atomic snapshot: `recheck` is the
/// reader of that later moment, and a caller that reads live memory passes the
/// same reader twice.
pub fn read_opponent<F: Fn(u64, Width) -> Result<u64, String>, G: Fn(u64, Width) -> Result<
    u64,
    String,
>>(read: &F, recheck: &G, base: u64) -> (res: Result<OpponentSnapshot, String>)
    requires
        reader_ready(*read),
        reader_ready(*recheck),
    ensures
        forall|
            ans: spec_fn(u64, Width) -> Result<u64, String>,
            again: spec_fn(u64, Width) -> Result<u64, String>,
        |
            #![trigger answers_from(*read, ans), answers_from(*recheck, again)]
            answers_from(*read, ans) && answers_from(*recheck, again) ==> snapshot_result(res)
                == opponent_answer(ans, again, base),
        forall|mem: Image|
            #![trigger reads_from(*read, mem), reads_from(*recheck, mem)]
            reads_from(*read, mem) && reads_from(*recheck, mem) ==> snapshot_result(res)
                == opponent_at(mem, base),
        res matches Ok(s) ==> snapshot_consistent(s@),
        res matches Err(e) ==> opponent_error(e@) || reader_error(*read, e) || reader_error(
            *recheck,
            e,
        ),
{
    let game = match read_u64(read, offset(base, GAME_POINTER)) {
        Ok(v) => v,
        Err(e) => return Err(e),
    };
    if game < 0x10000 {
        return Err(String::from_str("Waiting for a supported game session"));
    }
    let vtable = match read_u64(read, game) {
        Ok(v) => v,
        Err(e) => return Err(e),
    };
    if vtable != offset(base, GAME_VTABLE) {
        return Err(String::from_str("Waiting for a supported game session"));
    }
    let flag = match read_u8(read, offset(game, ROLE_FLAG)) {
        Ok(v) => v,
        Err(e) => return Err(e),
    };
    let role = match Role::from_flag(flag) {
        Ok(r) => r,
        Err(e) => return Err(e),
    };
    let list = match read_u64(read, offset(game, PLAYER_LIST)) {
        Ok(v) => v,
        Err(e) => return Err(e),
    };
    let count = match read_u32(read, offset(game, PLAYER_COUNT)) {
        Ok(v) => v,
        Err(e) => return Err(e),
    };
    if count > 4 || (count > 0 && list < 0x10000) {
        return Err(String::from_str("Player list unavailable"));
    }
    let ids = match read_player_ids(read, list, count) {
        Ok(v) => v,
        Err(e) => return Err(e),
    };
    let name = if ids.len() >= 2 {
        let text = match read_string(read, offset(base, role.opponent_name_rva()), NAME_LEN) {
            Ok(t) => t,
            Err(e) => return Err(e),
        };
        proof {
            lemma_trim_idempotent(text@);
        }
        clean_name_text(&text)
    } else {
        None
    };
    let host_day = if role == Role::Invader && name.is_some() {
        match host_campaign_day(read, recheck, base, game) {
            Ok(d) => Some(d),
            Err(_) => None,
        }
    } else {
        None
    };
    let snapshot = OpponentSnapshot { role, name, player_count: ids.len(), host_day };
    proof {
        assert forall|mem: Image|
            #![trigger reads_from(*read, mem), reads_from(*recheck, mem)]
            reads_from(*read, mem) && reads_from(*recheck, mem) implies {
            &&& opponent_at(mem, base) == Ok::<OpponentView, Seq<char>>(snapshot@)
            &&& qword_at(mem, at(base, GAME_POINTER)) == game
            &&& byte_at(mem, at(game, ROLE_FLAG)) == flag
            &&& qword_at(mem, at(game, PLAYER_LIST)) == list
            &&& dword_at(mem, at(game, PLAYER_COUNT)) == count
        } by {}
    }
    let changed = String::from_str("Session changing");
    let game_again = match read_u64(recheck, offset(base, GAME_POINTER)) {
        Ok(v) => v,
        Err(e) => return Err(e),
    };
    if game_again != game {
        return Err(changed);
    }
    let flag_again = match read_u8(recheck, offset(game, ROLE_FLAG)) {
        Ok(v) => v,
        Err(e) => return Err(e),
    };
    if flag_again != flag {
        return Err(changed);
    }
    let list_again = match read_u64(recheck, offset(game, PLAYER_LIST)) {
        Ok(v) => v,
        Err(e) => return Err(e),
    };
    if list_again != list {
        return Err(changed);
    }
    let count_again = match read_u32(recheck, offset(game, PLAYER_COUNT)) {
        Ok(v) => v,
        Err(e) => return Err(e),
    };
    if count_again != count {
        return Err(changed);
    }
    Ok(snapshot)
}

} // verus!
