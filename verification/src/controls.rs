//! Which parts of the overlay show, how they persist, and the tray menu's commands.
use crate::text::{chars_of, is_white_space, push_char, trim, trim_chars};
use vstd::prelude::*;
use vstd::string::*;

verus! {

/// Which groups of the overlay are shown.
#[derive(Clone, Copy, Debug, PartialEq, Eq, Structural)]
pub struct Controls {
    pub name: bool,
    pub day: bool,
    pub network: bool,
    pub health: bool,
    pub distance: bool,
}

/// The first position of `c` in `s`.
pub open spec fn find_char(s: Seq<char>, c: char) -> Option<int>
    decreases s.len(),
{
    if s.len() == 0 {
        None
    } else if s[0] == c {
        Some(0)
    } else {
        match find_char(s.drop_first(), c) {
            Some(i) => Some(i + 1),
            None => None,
        }
    }
}

/// A setting's value: `1` shows, `0` hides, anything else is ignored.
pub open spec fn setting_flag(v: Seq<char>) -> Option<bool> {
    if v == "1"@ {
        Some(true)
    } else if v == "0"@ {
        Some(false)
    } else {
        None
    }
}

/// Controls with the setting of one key changed; unknown keys change nothing.
pub open spec fn with_setting(c: Controls, key: Seq<char>, f: bool) -> Controls {
    if key == "name"@ {
        Controls { name: f, ..c }
    } else if key == "day"@ {
        Controls { day: f, ..c }
    } else if key == "network"@ {
        Controls { network: f, ..c }
    } else if key == "health"@ {
        Controls { health: f, ..c }
    } else if key == "distance"@ {
        Controls { distance: f, ..c }
    } else {
        c
    }
}

/// The effect of one settings line `key=value`, both sides trimmed.
pub open spec fn apply_line(c: Controls, line: Seq<char>) -> Controls {
    match find_char(line, '=') {
        None => c,
        Some(i) => match setting_flag(trim(line.subrange(i + 1, line.len() as int))) {
            None => c,
            Some(f) => with_setting(c, trim(line.subrange(0, i)), f),
        },
    }
}

/// The effect of a settings text, line by line.
pub open spec fn parse_text(c: Controls, s: Seq<char>) -> Controls
    decreases s.len(),
{
    match find_char(s, '\n') {
        Some(i) => if 0 <= i < s.len() {
            parse_text(apply_line(c, s.subrange(0, i)), s.subrange(i + 1, s.len() as int))
        } else {
            c
        },
        None => apply_line(c, s),
    }
}

/// The digit that stores a flag.
pub open spec fn flag_text(b: bool) -> Seq<char> {
    if b {
        "1"@
    } else {
        "0"@
    }
}

/// One line `key=digit` of the settings text.
pub open spec fn setting_line(key: Seq<char>, f: bool) -> Seq<char> {
    key + seq!['='] + flag_text(f) + seq!['\n']
}

/// The settings file's text for some controls: one line per group.
pub open spec fn settings_chars(c: Controls) -> Seq<char> {
    setting_line("name"@, c.name) + setting_line("day"@, c.day) + setting_line(
        "network"@,
        c.network,
    ) + setting_line("health"@, c.health) + setting_line("distance"@, c.distance)
}

proof fn lemma_find_char_bounds(s: Seq<char>, c: char)
    ensures
        find_char(s, c) matches Some(i) ==> 0 <= i < s.len() && s[i] == c && !s.subrange(
            0,
            i,
        ).contains(c),
        find_char(s, c) is None ==> !s.contains(c),
    decreases s.len(),
{
    if s.len() > 0 {
        lemma_find_char_bounds(s.drop_first(), c);
        if s[0] != c {
            if let Some(i) = find_char(s.drop_first(), c) {
                assert forall|k: int| 0 <= k < i + 1 implies #[trigger] s.subrange(0, i + 1)[k] != c by {
                    if k > 0 {
                        assert(s.subrange(0, i + 1)[k] == s.drop_first().subrange(0, i)[k - 1]);
                    }
                }
            } else {
                assert forall|k: int| 0 <= k < s.len() implies #[trigger] s[k] != c by {
                    if k > 0 {
                        assert(s[k] == s.drop_first()[k - 1]);
                    }
                }
            }
        } else {
            assert(s.subrange(0, 0) =~= Seq::<char>::empty());
        }
    }
}

proof fn lemma_find_char_at(s: Seq<char>, c: char, i: int)
    requires
        0 <= i <= s.len(),
        forall|k: int| 0 <= k < i ==> #[trigger] s[k] != c,
        i == s.len() || s[i] == c,
    ensures
        i == s.len() ==> find_char(s, c) is None,
        i < s.len() ==> find_char(s, c) == Some(i),
    decreases i,
{
    if i > 0 {
        lemma_find_char_at(s.drop_first(), c, i - 1);
    }
}

fn find_in(cs: &Vec<char>, c: char, lo: usize, hi: usize) -> (res: Option<usize>)
    requires
        lo <= hi <= cs@.len(),
    ensures
        match find_char(cs@.subrange(lo as int, hi as int), c) {
            Some(i) => res == Some((lo + i) as usize),
            None => res is None,
        },
{
    let mut k: usize = lo;
    while k < hi && cs[k] != c
        invariant
            lo <= k <= hi <= cs@.len(),
            forall|m: int| lo <= m < k ==> cs@[m] != c,
        decreases hi - k,
    {
        k = k + 1;
    }
    proof {
        let sub = cs@.subrange(lo as int, hi as int);
        assert forall|m: int| 0 <= m < k - lo implies #[trigger] sub[m] != c by {
            assert(sub[m] == cs@[m + lo]);
        }
        lemma_find_char_at(sub, c, k - lo);
    }
    if k < hi {
        Some(k)
    } else {
        None
    }
}

fn copy_range(cs: &Vec<char>, lo: usize, hi: usize) -> (res: Vec<char>)
    requires
        lo <= hi <= cs@.len(),
    ensures
        res@ == cs@.subrange(lo as int, hi as int),
{
    let mut out: Vec<char> = Vec::new();
    let mut k: usize = lo;
    while k < hi
        invariant
            lo <= k <= hi <= cs@.len(),
            out@ =~= cs@.subrange(lo as int, k as int),
        decreases hi - k,
    {
        out.push(cs[k]);
        k = k + 1;
    }
    out
}

fn same_chars(a: &Vec<char>, b: &str) -> (res: bool)
    ensures
        res == (a@ == b@),
{
    let bs = chars_of(b);
    if a.len() != bs.len() {
        return false;
    }
    let mut k: usize = 0;
    while k < a.len()
        invariant
            k <= a.len() == bs.len(),
            bs@ == b@,
            forall|m: int| 0 <= m < k ==> a@[m] == bs@[m],
        decreases a.len() - k,
    {
        if a[k] != bs[k] {
            return false;
        }
        k = k + 1;
    }
    proof {
        assert(a@ =~= bs@);
    }
    true
}

/// The digit that stores a flag.
fn flag_str(b: bool) -> (res: &'static str)
    ensures
        res@ == flag_text(b),
{
    if b {
        "1"
    } else {
        "0"
    }
}

fn push_setting(s: &mut String, key: &str, f: bool)
    ensures
        final(s)@ == old(s)@ + setting_line(key@, f),
{
    s.append(key);
    push_char(s, '=');
    s.append(flag_str(f));
    push_char(s, '\n');
    proof {
        assert(final(s)@ =~= old(s)@ + setting_line(key@, f));
    }
}

/// Command of the tray menu's "Hide all".
pub const HIDE_ALL_COMMAND: i32 = 6;

/// Command of the tray menu's "Show all".
pub const SHOW_ALL_COMMAND: i32 = 7;

/// Command of the tray menu's "Exit overlay".
pub const EXIT_COMMAND: i32 = 8;

/// The tray menu's entries after its separator: command and label.
pub fn menu_actions() -> (res: Vec<(i32, &'static str)>)
    ensures
        res@ == seq![
            (HIDE_ALL_COMMAND, "Hide all"),
            (SHOW_ALL_COMMAND, "Show all"),
            (EXIT_COMMAND, "Exit overlay"),
        ],
{
    let mut v: Vec<(i32, &'static str)> = Vec::new();
    v.push((HIDE_ALL_COMMAND, "Hide all"));
    v.push((SHOW_ALL_COMMAND, "Show all"));
    v.push((EXIT_COMMAND, "Exit overlay"));
    proof {
        assert(v@ =~= seq![
            (HIDE_ALL_COMMAND, "Hide all"),
            (SHOW_ALL_COMMAND, "Show all"),
            (EXIT_COMMAND, "Exit overlay"),
        ]);
    }
    v
}

/// The tooltip of the tray icon.
pub fn tray_tip() -> (res: &'static str)
    ensures
        res@ == if crate::EXTENDED {
            "Deathloop detailed overlay - right-click controls"@
        } else {
            "Deathloop name/network overlay - right-click controls"@
        },
{
    if crate::EXTENDED {
        "Deathloop detailed overlay - right-click controls"
    } else {
        "Deathloop name/network overlay - right-click controls"
    }
}

/// What the overlay does after a tray-menu command.
#[derive(Clone, Copy, Debug, PartialEq, Eq, Structural)]
pub enum MenuAction {
    /// The shown groups changed: save and redraw.
    Changed,
    /// Close the overlay.
    Exit,
    /// Nothing was chosen.
    Ignored,
}

/// The controls after a shortcut key, none when the key toggles nothing.
pub open spec fn key_toggled(c: Controls, key: u32) -> Option<Controls> {
    if key == 1 {
        Some(Controls { name: !c.name, ..c })
    } else if key == 2 {
        Some(Controls { day: !c.day, ..c })
    } else if key == 3 {
        Some(Controls { network: !c.network, ..c })
    } else if key == 4 && crate::EXTENDED {
        Some(Controls { health: !c.health, ..c })
    } else if key == 5 && crate::EXTENDED {
        Some(Controls { distance: !c.distance, ..c })
    } else {
        None
    }
}

/// Whether each group shows, in the order of the tray menu's entries: name, day,
/// network, health, distance.
pub open spec fn group_flags(c: Controls) -> Seq<bool> {
    seq![c.name, c.day, c.network, c.health, c.distance]
}

/// All groups shown or all hidden.
pub open spec fn all_set(v: bool) -> Controls {
    Controls { name: v, day: v, network: v, health: v, distance: v }
}

/// The controls after a tray-menu command, none when it changes no group.
pub open spec fn menu_effect(c: Controls, command: i32) -> Option<Controls> {
    if command == 1 {
        Some(Controls { name: !c.name, ..c })
    } else if command == 2 {
        Some(Controls { day: !c.day, ..c })
    } else if command == 3 {
        Some(Controls { network: !c.network, ..c })
    } else if command == 4 {
        Some(Controls { health: !c.health, ..c })
    } else if command == 5 {
        Some(Controls { distance: !c.distance, ..c })
    } else if command == HIDE_ALL_COMMAND {
        Some(all_set(false))
    } else if command == SHOW_ALL_COMMAND {
        Some(all_set(true))
    } else {
        None
    }
}

impl Controls {
    /// Every group shown: the settings before a settings file is read.
    pub fn new() -> (res: Controls)
        ensures
            res == (Controls { name: true, day: true, network: true, health: true, distance: true }),
    {
        Controls { name: true, day: true, network: true, health: true, distance: true }
    }

    fn apply_line_at(&mut self, cs: &Vec<char>, lo: usize, hi: usize)
        requires
            lo <= hi <= cs@.len(),
        ensures
            *final(self) == apply_line(*old(self), cs@.subrange(lo as int, hi as int)),
    {
        let ghost line = cs@.subrange(lo as int, hi as int);
        match find_in(cs, '=', lo, hi) {
            None => {},
            Some(eq) => {
                proof {
                    lemma_find_char_bounds(line, '=');
                    assert(line.subrange((eq - lo) + 1, line.len() as int) =~= cs@.subrange(
                        eq + 1,
                        hi as int,
                    ));
                    assert(line.subrange(0, eq - lo) =~= cs@.subrange(lo as int, eq as int));
                }
                let value = trim_chars(&copy_range(cs, eq + 1, hi));
                let flag = if same_chars(&value, "1") {
                    Some(true)
                } else if same_chars(&value, "0") {
                    Some(false)
                } else {
                    None
                };
                if let Some(f) = flag {
                    let key = trim_chars(&copy_range(cs, lo, eq));
                    if same_chars(&key, "name") {
                        self.name = f;
                    } else if same_chars(&key, "day") {
                        self.day = f;
                    } else if same_chars(&key, "network") {
                        self.network = f;
                    } else if same_chars(&key, "health") {
                        self.health = f;
                    } else if same_chars(&key, "distance") {
                        self.distance = f;
                    }
                }
            },
        }
    }

    /// The settings file's text: one line `key=1` or `key=0` per group.
    pub fn settings_text(&self) -> (res: String)
        ensures
            res@ == settings_chars(*self),
    {
        let mut s = String::new();
        push_setting(&mut s, "name", self.name);
        push_setting(&mut s, "day", self.day);
        push_setting(&mut s, "network", self.network);
        push_setting(&mut s, "health", self.health);
        push_setting(&mut s, "distance", self.distance);
        proof {
            assert(Seq::<char>::empty() + setting_line("name"@, self.name) =~= setting_line(
                "name"@,
                self.name,
            ));
        }
        s
    }

    /// Toggles the group of a shortcut key: F1 name, F2 day, F3 network, and in the
    /// extended build F4 health and F5 distance. Tells whether anything changed.
    pub fn key_toggle(&mut self, key: u32) -> (changed: bool)
        ensures
            match key_toggled(*old(self), key) {
                Some(c) => changed && *final(self) == c,
                None => !changed && *final(self) == *old(self),
            },
    {
        if key == 1 {
            self.name = !self.name;
        } else if key == 2 {
            self.day = !self.day;
        } else if key == 3 {
            self.network = !self.network;
        } else if key == 4 && crate::EXTENDED {
            self.health = !self.health;
        } else if key == 5 && crate::EXTENDED {
            self.distance = !self.distance;
        } else {
            return false;
        }
        true
    }

    /// Applies a tray-menu command and tells what the overlay does next.
    pub fn menu_command(&mut self, command: i32) -> (res: MenuAction)
        ensures
            match menu_effect(*old(self), command) {
                Some(c) => res == MenuAction::Changed && *final(self) == c,
                None => *final(self) == *old(self) && res == (if command == EXIT_COMMAND {
                    MenuAction::Exit
                } else {
                    MenuAction::Ignored
                }),
            },
    {
        match command {
            1 => self.name = !self.name,
            2 => self.day = !self.day,
            3 => self.network = !self.network,
            4 => self.health = !self.health,
            5 => self.distance = !self.distance,
            6 | 7 => {
                let v = command == 7;
                self.name = v;
                self.day = v;
                self.network = v;
                self.health = v;
                self.distance = v;
            },
            8 => return MenuAction::Exit,
            _ => return MenuAction::Ignored,
        }
        MenuAction::Changed
    }

    /// Whether some group is shown.
    pub open spec fn any_visible_spec(&self) -> bool {
        self.name || self.day || self.network || (crate::EXTENDED && (self.health
            || self.distance))
    }

    /// Whether some group is shown.
    pub fn any_visible(&self) -> (res: bool)
        ensures
            res == self.any_visible_spec(),
    {
        self.name || self.day || self.network || (crate::EXTENDED && (self.health
            || self.distance))
    }

    /// The checkable tray-menu entries: command, label and whether it is checked.
    pub fn menu_entries(&self) -> (res: Vec<(i32, &'static str, bool)>)
        ensures
            res@.len() == if crate::EXTENDED {
                5int
            } else {
                3int
            },
            res@[0] == (1i32, "Opponent name", self.name),
            res@[1] == (2i32, "Host day", self.day),
            res@[2] == (3i32, "Network statistics", self.network),
            crate::EXTENDED ==> res@[3] == (4i32, "Opponent health", self.health) && res@[4] == (
                5i32,
                "Distance",
                self.distance,
            ),
            forall|i: int|
                0 <= i < res@.len() ==> (#[trigger] res@[i]).0 == i + 1 && res@[i].2 == group_flags(
                    *self,
                )[i],
    {
        let mut entries: Vec<(i32, &'static str, bool)> = Vec::new();
        entries.push((1, "Opponent name", self.name));
        entries.push((2, "Host day", self.day));
        entries.push((3, "Network statistics", self.network));
        if crate::EXTENDED {
            entries.push((4, "Opponent health", self.health));
            entries.push((5, "Distance", self.distance));
        }
        entries
    }

    /// Applies a settings text: each line `key=value` with value `1` or `0` sets the
    /// group named by the key; other lines change nothing.
    pub fn parse(&mut self, text: &str)
        ensures
            *final(self) == parse_text(*old(self), text@),
    {
        let cs = chars_of(text);
        let n = cs.len();
        let mut start: usize = 0;
        proof {
            assert(cs@.subrange(0, n as int) =~= text@);
        }
        loop
            invariant
                start <= n == cs@.len(),
                cs@ == text@,
                parse_text(*old(self), text@) == parse_text(
                    *self,
                    cs@.subrange(start as int, n as int),
                ),
            ensures
                *self == parse_text(*old(self), text@),
            decreases n - start,
        {
            let ghost rest = cs@.subrange(start as int, n as int);
            match find_in(&cs, '\n', start, n) {
                Some(e) => {
                    proof {
                        lemma_find_char_bounds(rest, '\n');
                        assert(rest.subrange(0, e - start) =~= cs@.subrange(
                            start as int,
                            e as int,
                        ));
                        assert(rest.subrange(e - start + 1, rest.len() as int) =~= cs@.subrange(
                            e + 1,
                            n as int,
                        ));
                    }
                    self.apply_line_at(&cs, start, e);
                    start = e + 1;
                },
                None => {
                    proof {
                        assert(cs@.subrange(start as int, n as int) =~= rest);
                    }
                    self.apply_line_at(&cs, start, n);
                    break ;
                },
            }
        }
    }
}

} // verus!

verus! {

proof fn lemma_find_char_concat(a: Seq<char>, b: Seq<char>, c: char)
    requires
        !a.contains(c),
    ensures
        find_char(a + b, c) == match find_char(b, c) {
            Some(i) => Some(i + a.len()),
            None => None::<int>,
        },
    decreases a.len(),
{
    if a.len() > 0 {
        assert((a + b)[0] == a[0]);
        assert((a + b).drop_first() =~= a.drop_first() + b);
        assert(!a.drop_first().contains(c)) by {
            if a.drop_first().contains(c) {
                let k = choose|k: int| 0 <= k < a.drop_first().len() && a.drop_first()[k] == c;
                assert(a[k + 1] == c);
            }
        }
        lemma_find_char_concat(a.drop_first(), b, c);
    } else {
        assert(a + b =~= b);
    }
}

proof fn lemma_trim_plain(s: Seq<char>)
    requires
        s.len() > 0,
        !is_white_space(s[0]),
        !is_white_space(s.last()),
    ensures
        trim(s) == s,
{
}

proof fn lemma_setting_line(c: Controls, key: Seq<char>, f: bool, rest: Seq<char>)
    requires
        key.len() > 0,
        !key.contains('\n'),
        !key.contains('='),
        !is_white_space(key[0]),
        !is_white_space(key.last()),
    ensures
        parse_text(c, key + seq!['='] + flag_text(f) + seq!['\n'] + rest) == parse_text(
            with_setting(c, key, f),
            rest,
        ),
{
    reveal_strlit("1");
    reveal_strlit("0");
    let d = flag_text(f);
    assert(d.len() == 1 && (d[0] == '1' || d[0] == '0'));
    let line = key + seq!['='] + d;
    let s = key + seq!['='] + d + seq!['\n'] + rest;
    assert(s =~= line + (seq!['\n'] + rest));
    assert(!line.contains('\n')) by {
        if line.contains('\n') {
            let k = choose|k: int| 0 <= k < line.len() && line[k] == '\n';
            if k < key.len() {
                assert(key[k] == '\n');
            }
        }
    }
    lemma_find_char_concat(line, seq!['\n'] + rest, '\n');
    assert(find_char(seq!['\n'] + rest, '\n') == Some(0int));
    let n = line.len() as int;
    assert(s.subrange(0, n) =~= line);
    assert(s.subrange(n + 1, s.len() as int) =~= rest);
    assert(line =~= key + (seq!['='] + d));
    lemma_find_char_concat(key, seq!['='] + d, '=');
    assert(find_char(seq!['='] + d, '=') == Some(0int));
    let k = key.len() as int;
    assert(line.subrange(k + 1, line.len() as int) =~= d);
    assert(line.subrange(0, k) =~= key);
    lemma_trim_plain(d);
    lemma_trim_plain(key);
    assert(apply_line(c, line) == with_setting(c, key, f));
}

proof fn lemma_plain_key(key: Seq<char>)
    requires
        key.len() > 0,
        forall|k: int| 0 <= k < key.len() ==> 'a' <= #[trigger] key[k] <= 'z',
    ensures
        !key.contains('\n'),
        !key.contains('='),
        !is_white_space(key[0]),
        !is_white_space(key.last()),
{
    assert(!key.contains('\n')) by {
        if key.contains('\n') {
            let k = choose|k: int| 0 <= k < key.len() && key[k] == '\n';
            assert('a' <= key[k] <= 'z');
        }
    }
    assert(!key.contains('=')) by {
        if key.contains('=') {
            let k = choose|k: int| 0 <= k < key.len() && key[k] == '=';
            assert('a' <= key[k] <= 'z');
        }
    }
    assert('a' <= key[0] <= 'z');
    assert('a' <= key[key.len() - 1] <= 'z');
}

proof fn lemma_setting_line_of(c: Controls, key: Seq<char>, f: bool, rest: Seq<char>)
    requires
        key.len() > 0,
        forall|k: int| 0 <= k < key.len() ==> 'a' <= #[trigger] key[k] <= 'z',
    ensures
        parse_text(c, setting_line(key, f) + rest) == parse_text(with_setting(c, key, f), rest),
{
    lemma_plain_key(key);
    lemma_setting_line(c, key, f, rest);
    assert(setting_line(key, f) + rest =~= key + seq!['='] + flag_text(f) + seq!['\n'] + rest);
}

proof fn lemma_settings_layout(saved: Controls)
    ensures
        settings_chars(saved) == setting_line("name"@, saved.name) + (setting_line(
            "day"@,
            saved.day,
        ) + (setting_line("network"@, saved.network) + (setting_line("health"@, saved.health)
            + (setting_line("distance"@, saved.distance) + Seq::<char>::empty())))),
{
    let a = setting_line("name"@, saved.name);
    let b = setting_line("day"@, saved.day);
    let c = setting_line("network"@, saved.network);
    let d = setting_line("health"@, saved.health);
    let e = setting_line("distance"@, saved.distance);
    assert(e + Seq::<char>::empty() =~= e);
    assert(a + b + c + d + e =~= a + (b + (c + (d + e))));
}

proof fn lemma_name_line(c: Controls, f: bool, rest: Seq<char>)
    ensures
        parse_text(c, setting_line("name"@, f) + rest) == parse_text(
            Controls { name: f, ..c },
            rest,
        ),
{
    reveal_strlit("name");
    lemma_setting_line_of(c, "name"@, f, rest);
}

proof fn lemma_day_line(c: Controls, f: bool, rest: Seq<char>)
    ensures
        parse_text(c, setting_line("day"@, f) + rest) == parse_text(Controls { day: f, ..c }, rest),
{
    reveal_strlit("name");
    reveal_strlit("day");
    lemma_setting_line_of(c, "day"@, f, rest);
}

proof fn lemma_network_line(c: Controls, f: bool, rest: Seq<char>)
    ensures
        parse_text(c, setting_line("network"@, f) + rest) == parse_text(
            Controls { network: f, ..c },
            rest,
        ),
{
    reveal_strlit("name");
    reveal_strlit("day");
    reveal_strlit("network");
    lemma_setting_line_of(c, "network"@, f, rest);
}

proof fn lemma_health_line(c: Controls, f: bool, rest: Seq<char>)
    ensures
        parse_text(c, setting_line("health"@, f) + rest) == parse_text(
            Controls { health: f, ..c },
            rest,
        ),
{
    reveal_strlit("name");
    reveal_strlit("day");
    reveal_strlit("network");
    reveal_strlit("health");
    lemma_setting_line_of(c, "health"@, f, rest);
}

proof fn lemma_distance_line(c: Controls, f: bool, rest: Seq<char>)
    ensures
        parse_text(c, setting_line("distance"@, f) + rest) == parse_text(
            Controls { distance: f, ..c },
            rest,
        ),
{
    reveal_strlit("name");
    reveal_strlit("day");
    reveal_strlit("network");
    reveal_strlit("health");
    reveal_strlit("distance");
    lemma_setting_line_of(c, "distance"@, f, rest);
}

/// Settings persist: reading back the text that was saved gives the same
/// controls, whatever the controls were before the reading.
pub proof fn lemma_settings_roundtrip(saved: Controls, before: Controls)
    ensures
        parse_text(before, settings_chars(saved)) == saved,
{
    lemma_settings_layout(saved);
    let empty = Seq::<char>::empty();
    let l5 = setting_line("distance"@, saved.distance) + empty;
    let l4 = setting_line("health"@, saved.health) + l5;
    let l3 = setting_line("network"@, saved.network) + l4;
    let l2 = setting_line("day"@, saved.day) + l3;
    let c1 = Controls { name: saved.name, ..before };
    let c2 = Controls { day: saved.day, ..c1 };
    let c3 = Controls { network: saved.network, ..c2 };
    let c4 = Controls { health: saved.health, ..c3 };
    let c5 = Controls { distance: saved.distance, ..c4 };
    lemma_name_line(before, saved.name, l2);
    lemma_day_line(c1, saved.day, l3);
    lemma_network_line(c2, saved.network, l4);
    lemma_health_line(c3, saved.health, l5);
    lemma_distance_line(c4, saved.distance, empty);
    assert(parse_text(c5, empty) == c5);
}

} // verus!

verus! {

/// The last line of a settings text counts whether or not a line break ends it:
/// a text without a line break is one line, applied like any other, and adding a
/// line break after it changes nothing.
pub proof fn lemma_last_line_counts(c: Controls, line: Seq<char>)
    requires
        !line.contains('\n'),
    ensures
        parse_text(c, line) == apply_line(c, line),
        parse_text(c, line + seq!['\n']) == parse_text(c, line),
{
    lemma_find_char_bounds(line, '\n');
    let t = line + seq!['\n'];
    assert forall|k: int| 0 <= k < line.len() implies #[trigger] t[k] != '\n' by {
        assert(t[k] == line[k]);
        if line[k] == '\n' {
            assert(line.contains('\n'));
        }
    }
    lemma_find_char_at(t, '\n', line.len() as int);
    assert(t.subrange(0, line.len() as int) =~= line);
    let empty = t.subrange(line.len() as int + 1, t.len() as int);
    assert(empty =~= Seq::<char>::empty());
    let c1 = apply_line(c, line);
    lemma_find_char_bounds(empty, '\n');
    lemma_find_char_bounds(empty, '=');
    assert(parse_text(c1, empty) == apply_line(c1, empty));
    assert(apply_line(c1, empty) == c1);
}

/// The settings line of a group, with or without a line break after it, sets
/// that group and no other, whatever the controls were before.
pub proof fn lemma_one_setting_line(c: Controls, f: bool)
    ensures
        parse_text(c, "name"@ + seq!['='] + flag_text(f)) == (Controls { name: f, ..c }),
        parse_text(c, "day"@ + seq!['='] + flag_text(f)) == (Controls { day: f, ..c }),
        parse_text(c, "network"@ + seq!['='] + flag_text(f)) == (Controls { network: f, ..c }),
        parse_text(c, "health"@ + seq!['='] + flag_text(f)) == (Controls { health: f, ..c }),
        parse_text(c, "distance"@ + seq!['='] + flag_text(f)) == (Controls { distance: f, ..c }),
{
    reveal_strlit("name");
    reveal_strlit("day");
    reveal_strlit("network");
    reveal_strlit("health");
    reveal_strlit("distance");
    reveal_strlit("1");
    reveal_strlit("0");
    let empty = Seq::<char>::empty();
    assert(parse_text(Controls { name: f, ..c }, empty) == Controls { name: f, ..c });
    assert(parse_text(Controls { day: f, ..c }, empty) == Controls { day: f, ..c });
    assert(parse_text(Controls { network: f, ..c }, empty) == Controls { network: f, ..c });
    assert(parse_text(Controls { health: f, ..c }, empty) == Controls { health: f, ..c });
    assert(parse_text(Controls { distance: f, ..c }, empty) == Controls { distance: f, ..c });
    lemma_one_line("name"@, c, f);
    lemma_name_line(c, f, empty);
    lemma_one_line("day"@, c, f);
    lemma_day_line(c, f, empty);
    lemma_one_line("network"@, c, f);
    lemma_network_line(c, f, empty);
    lemma_one_line("health"@, c, f);
    lemma_health_line(c, f, empty);
    lemma_one_line("distance"@, c, f);
    lemma_distance_line(c, f, empty);
}

proof fn lemma_one_line(key: Seq<char>, c: Controls, f: bool)
    requires
        forall|k: int| 0 <= k < key.len() ==> 'a' <= #[trigger] key[k] <= 'z',
        flag_text(f).len() == 1,
        flag_text(f)[0] == '0' || flag_text(f)[0] == '1',
    ensures
        parse_text(c, key + seq!['='] + flag_text(f)) == parse_text(
            c,
            setting_line(key, f) + Seq::<char>::empty(),
        ),
{
    let line = key + seq!['='] + flag_text(f);
    assert forall|k: int| 0 <= k < line.len() implies #[trigger] line[k] != '\n' by {
        if k < key.len() {
            assert(line[k] == key[k]);
        } else if k == key.len() {
            assert(line[k] == '=');
        } else {
            assert(line[k] == flag_text(f)[0]);
        }
    }
    assert(!line.contains('\n'));
    lemma_last_line_counts(c, line);
    assert(setting_line(key, f) + Seq::<char>::empty() =~= line + seq!['\n']);
}

/// Choosing a checkable tray entry flips the group that the entry shows checked,
/// and no other: entry `i`, command `i + 1`, shows group `i` of `group_flags`.
pub proof fn lemma_menu_entry_flips_its_group(c: Controls, i: int)
    requires
        0 <= i < 5,
    ensures
        menu_effect(c, (i + 1) as i32) is Some,
        group_flags(menu_effect(c, (i + 1) as i32)->Some_0) == group_flags(c).update(
            i,
            !group_flags(c)[i],
        ),
{
    let c2 = menu_effect(c, (i + 1) as i32)->Some_0;
    assert(group_flags(c2) =~= group_flags(c).update(i, !group_flags(c)[i]));
}

/// Each shortcut toggles its own group and no other, as the help text names them:
/// F1 the name, F2 the day, F3 the network statistics, and in the extended build
/// F4 the health and F5 the distance. F1 to F3 do what the tray entries of the same
/// groups do, and the other keys toggle nothing.
pub proof fn lemma_each_key_toggles_its_group(c: Controls, key: u32)
    ensures
        1 <= key <= 3 || (crate::EXTENDED && 4 <= key <= 5) ==> (key_toggled(c, key) is Some
            && group_flags(key_toggled(c, key)->Some_0) == group_flags(c).update(
            key - 1,
            !group_flags(c)[key - 1],
        )),
        1 <= key <= 3 ==> key_toggled(c, key) == menu_effect(c, key as i32),
        !(1 <= key <= 3 || (crate::EXTENDED && 4 <= key <= 5)) ==> key_toggled(c, key) is None,
{
    if 1 <= key <= 5 {
        if let Some(c2) = key_toggled(c, key) {
            assert(group_flags(c2) =~= group_flags(c).update(key - 1, !group_flags(c)[key - 1]));
        }
    }
}

/// A shortcut key toggles: pressing it twice restores the controls.
pub proof fn lemma_key_toggle_twice(c: Controls, key: u32)
    requires
        key_toggled(c, key) is Some,
    ensures
        key_toggled(key_toggled(c, key)->Some_0, key) == Some(c),
{
}

/// "Hide all" hides every group and "Show all" shows every group, whatever was shown.
pub proof fn lemma_hide_and_show_all(c: Controls)
    ensures
        menu_effect(c, HIDE_ALL_COMMAND) == Some(all_set(false)),
        menu_effect(c, SHOW_ALL_COMMAND) == Some(all_set(true)),
        !all_set(false).any_visible_spec(),
{
}

} // verus!
