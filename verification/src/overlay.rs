//! What the overlay window shows and how its pixels are made transparent.
use crate::controls::Controls;
use crate::game::{label_of, OpponentSnapshot, OpponentView, Role};
use crate::keyboard::{hint_text, Keyboard};
use crate::network::{fresh_monitor, Monitor, VARIATION_WINDOW};
use crate::text::{decimal, push_char, push_decimal, same_text};
use vstd::prelude::*;
use vstd::string::*;

verus! {

/// Text shown while no game process is attached.
pub const DETACHED_TEXT: &'static str = "Waiting for Deathloop (check process access)";

/// Text shown while the game has no readable session.
pub const NO_SESSION_TEXT: &'static str = "Waiting for game session";

/// How long to wait between attempts to attach to the game.
pub const ATTACH_RETRY_NS: u64 = 2_000_000_000;

/// Parts joined by a separator.
pub open spec fn join(parts: Seq<Seq<char>>, sep: Seq<char>) -> Seq<char>
    decreases parts.len(),
{
    if parts.len() == 0 {
        Seq::empty()
    } else if parts.len() == 1 {
        parts[0]
    } else {
        join(parts.drop_last(), sep) + sep + parts.last()
    }
}

/// The identity parts of a snapshot: the opponent's name (or that it is awaited)
/// when names are shown, and the host's day when days are shown and a name is there.
pub open spec fn identity_parts(c: Controls, s: OpponentView) -> Seq<Seq<char>> {
    let name_part = if c.name {
        seq![
            label_of(s.role) + ": "@ + match s.name {
                Some(n) => n,
                None => "waiting for opponent"@,
            },
        ]
    } else {
        Seq::empty()
    };
    let day_part = match (s.name, s.host_day) {
        (Some(_), Some(d)) => if c.day {
            seq!["Day "@ + decimal(d as int)]
        } else {
            Seq::empty()
        },
        _ => Seq::empty(),
    };
    name_part + day_part
}

/// The lines shown for an attached game: the identity line, or that the session is
/// awaited; the network line; and in the extended build the extra line.
pub open spec fn game_lines(
    c: Controls,
    opponent: Result<OpponentView, Seq<char>>,
    network: Option<Seq<char>>,
    extra: Option<Seq<char>>,
) -> Seq<Seq<char>> {
    let first = match opponent {
        Ok(s) => {
            let parts = identity_parts(c, s);
            if parts.len() > 0 {
                seq![join(parts, " | "@)]
            } else {
                Seq::empty()
            }
        },
        Err(_) => if c.name || c.day {
            seq![NO_SESSION_TEXT@]
        } else {
            Seq::empty()
        },
    };
    let net = match network {
        Some(n) => if c.network {
            seq![n]
        } else {
            Seq::empty()
        },
        None => Seq::empty(),
    };
    let more = match extra {
        Some(x) => if crate::EXTENDED && (c.health || c.distance) {
            seq![x]
        } else {
            Seq::empty()
        },
        None => Seq::empty(),
    };
    first + net + more
}

/// Plain view of an optional text.
pub open spec fn opt_chars(t: Option<&String>) -> Option<Seq<char>> {
    match t {
        Some(s) => Some(s@),
        None => None,
    }
}

/// Plain view of a reading of the opponent.
pub open spec fn opponent_chars(r: &Result<OpponentSnapshot, String>) -> Result<
    OpponentView,
    Seq<char>,
> {
    match r {
        Ok(s) => Ok(s@),
        Err(e) => Err(e@),
    }
}

/// Appends `parts` joined by `sep` to `out`.
fn push_joined(out: &mut String, parts: &Vec<String>, sep: &str)
    ensures
        final(out)@ == old(out)@ + join(parts@.map_values(|p: String| p@), sep@),
{
    let ghost views = parts@.map_values(|p: String| p@);
    let mut k: usize = 0;
    while k < parts.len()
        invariant
            k <= parts.len(),
            views == parts@.map_values(|p: String| p@),
            out@ == old(out)@ + join(views.subrange(0, k as int), sep@),
        decreases parts.len() - k,
    {
        let ghost before = out@;
        if k > 0 {
            out.append(sep);
        }
        out.append(parts[k].as_str());
        proof {
            let pre = views.subrange(0, k as int + 1);
            assert(pre.drop_last() =~= views.subrange(0, k as int));
            assert(pre.last() == parts@[k as int]@);
            assert(out@ =~= old(out)@ + join(pre, sep@));
        }
        k = k + 1;
    }
    proof {
        assert(views.subrange(0, parts@.len() as int) =~= views);
    }
}

/// Whether the overlay shows anything of the game: some group is shown and the
/// overlay is not hidden.
pub fn shows_game_info(controls: &Controls, keyboard: &Keyboard) -> (res: bool)
    ensures
        res == (controls.any_visible_spec() && !keyboard@.hidden),
{
    controls.any_visible() && !keyboard.is_hidden()
}

/// The identity line has one part for the name when names are shown, and one for
/// the host's day exactly when days are shown and both a name and a day are
/// there; the day part is the last and reads "Day " and the day in decimal.
pub proof fn lemma_identity_parts_follow_the_settings(c: Controls, s: OpponentView)
    ensures
        identity_parts(c, s).len() == (if c.name {
            1int
        } else {
            0int
        }) + (if c.day && s.name is Some && s.host_day is Some {
            1int
        } else {
            0int
        }),
        (c.day && s.name is Some && s.host_day is Some) ==> identity_parts(c, s).last() == "Day "@
            + decimal(s.host_day->Some_0 as int),
{
}

/// With days hidden, knowing the host's day changes nothing in the identity line.
pub proof fn lemma_hidden_day_is_not_shown(c: Controls, s: OpponentView)
    requires
        !c.day,
    ensures
        identity_parts(c, s) == identity_parts(c, OpponentView { host_day: None, ..s }),
{
    assert(identity_parts(c, s) =~= identity_parts(c, OpponentView { host_day: None, ..s }));
}

/// The text for an attached game, from the reading of the opponent, the network
/// line when one was read, and the extra line of the extended build.
pub fn game_text(
    controls: &Controls,
    opponent: &Result<OpponentSnapshot, String>,
    network: Option<&String>,
    extra: Option<&String>,
) -> (res: String)
    ensures
        res@ == join(
            game_lines(*controls, opponent_chars(opponent), opt_chars(network), opt_chars(extra)),
            "\n"@,
        ),
{
    let mut lines: Vec<String> = Vec::new();
    match opponent {
        Ok(s) => {
            let mut identity: Vec<String> = Vec::new();
            if controls.name {
                let mut t = String::from_str(s.role.opponent_label());
                t.append(": ");
                match &s.name {
                    Some(n) => t.append(n.as_str()),
                    None => t.append("waiting for opponent"),
                }
                identity.push(t);
            }
            if controls.day && s.name.is_some() {
                if let Some(day) = s.host_day {
                    let mut t = String::from_str("Day ");
                    push_decimal(&mut t, day);
                    identity.push(t);
                }
            }
            proof {
                assert(identity@.map_values(|p: String| p@) =~= identity_parts(*controls, s@));
            }
            if identity.len() > 0 {
                let mut line = String::new();
                push_joined(&mut line, &identity, " | ");
                lines.push(line);
            }
        },
        Err(_) => {
            if controls.name || controls.day {
                lines.push(String::from_str(NO_SESSION_TEXT));
            }
        },
    }
    let ghost first = lines@.map_values(|p: String| p@);
    if controls.network {
        if let Some(n) = network {
            lines.push(n.clone());
        }
    }
    let ghost second = lines@.map_values(|p: String| p@);
    if crate::EXTENDED && (controls.health || controls.distance) {
        if let Some(x) = extra {
            lines.push(x.clone());
        }
    }
    proof {
        let o = opponent_chars(opponent);
        assert(lines@.map_values(|p: String| p@) =~= game_lines(
            *controls,
            o,
            opt_chars(network),
            opt_chars(extra),
        ));
    }
    let mut out = String::new();
    push_joined(&mut out, &lines, "\n");
    proof {
        assert(out@ =~= join(lines@.map_values(|p: String| p@), "\n"@));
    }
    out
}

/// What a frame of the overlay shows, decided before anything is read.
#[derive(Clone, Copy, Debug, PartialEq, Eq, Structural)]
pub enum FramePlan {
    /// Nothing of the game shows: the text is empty.
    Blank,
    /// No game is attached: the detached text, and the network histories are reset
    /// (`detached_frame` does both).
    Detached,
    /// The game is read for its opponent, for the network line when `network`, and
    /// for the extra line of the extended build when `extra`; `game_text` joins them.
    Game { network: bool, extra: bool },
}

/// The frame of a detached overlay: the network histories are forgotten and the
/// detached text shows.
pub fn detached_frame(network: &mut Monitor) -> (res: String)
    ensures
        final(network)@ == fresh_monitor(),
        final(network)@.variation.len() <= VARIATION_WINDOW,
        res@ == DETACHED_TEXT@,
{
    network.reset();
    String::from_str(DETACHED_TEXT)
}

/// Whether the window must be drawn again: only when the text differs from the
/// one last drawn.
pub fn needs_repaint(last: &Option<String>, text: &String) -> (res: bool)
    ensures
        res == !(last matches Some(l) && l@ == text@),
{
    match last {
        Some(l) => !same_text(l.as_str(), text.as_str()),
        None => true,
    }
}

/// Remembers the text once the window shows it; a failed update keeps the text
/// last drawn, so that the next frame tries again.
pub fn after_update(last: &mut Option<String>, text: String, updated: bool)
    ensures
        updated ==> (*final(last) matches Some(t) && t@ == text@),
        !updated ==> *final(last) == *old(last),
{
    if updated {
        *last = Some(text);
    }
}

/// What a frame shows: nothing when no group shows or the overlay is hidden; the
/// detached text when no game is attached; else the game's lines.
pub open spec fn plan_of(c: Controls, hidden: bool, attached: bool) -> FramePlan {
    if !(c.any_visible_spec() && !hidden) {
        FramePlan::Blank
    } else if !attached {
        FramePlan::Detached
    } else {
        FramePlan::Game { network: c.network, extra: crate::EXTENDED && (c.health || c.distance) }
    }
}

/// Decides what the frame of this moment shows, from the settings, the keyboard
/// state and whether a game is attached.
pub fn frame_plan(controls: &Controls, keyboard: &Keyboard, attached: bool) -> (res: FramePlan)
    ensures
        res == plan_of(*controls, keyboard@.hidden, attached),
{
    if !shows_game_info(controls, keyboard) {
        FramePlan::Blank
    } else if !attached {
        FramePlan::Detached
    } else {
        FramePlan::Game {
            network: controls.network,
            extra: crate::EXTENDED && (controls.health || controls.distance),
        }
    }
}

} // verus!

verus! {

/// The overlay text with the keyboard hint below it, unless the overlay is hidden.
pub open spec fn with_hint_chars(text: Seq<char>, hint: Option<Seq<char>>, hidden: bool) -> Seq<
    char,
> {
    match hint {
        Some(h) => if hidden {
            text
        } else if text.len() == 0 {
            h
        } else {
            text + "\n"@ + h
        },
        None => text,
    }
}

/// Appends the keyboard hint of `now` to the overlay text, on a line of its own.
pub fn with_hint(text: String, keyboard: &Keyboard, now: u64) -> (res: String)
    ensures
        res@ == with_hint_chars(text@, hint_text(keyboard@, now), keyboard@.hidden),
        keyboard@.hidden ==> res@ == text@,
{
    let mut text = text;
    if keyboard.is_hidden() {
        return text;
    }
    if let Some(hint) = keyboard.hint(now) {
        if text.as_str().unicode_len() > 0 {
            push_char(&mut text, '\n');
            proof {
                reveal_strlit("\n");
            }
        }
        text.append(hint);
    }
    text
}

/// The largest of the three colour channels of a pixel.
pub open spec fn coverage_of(pixel: u32) -> u32 {
    let b = pixel & 255;
    let g = (pixel >> 8) & 255;
    let r = (pixel >> 16) & 255;
    if b >= g && b >= r {
        b
    } else if g >= r {
        g
    } else {
        r
    }
}

/// White text drawn on black already holds premultiplied coverage: the pixel keeps
/// its colour and takes its brightest channel as alpha.
pub open spec fn with_coverage_alpha(pixel: u32) -> u32 {
    (pixel & 0x00FF_FFFF) | (coverage_of(pixel) << 24)
}

/// Sets a pixel's alpha to its coverage.
pub fn coverage_alpha(pixel: u32) -> (res: u32)
    ensures
        res == with_coverage_alpha(pixel),
{
    let b = pixel & 255;
    let g = (pixel >> 8) & 255;
    let r = (pixel >> 16) & 255;
    let coverage = if b >= g && b >= r {
        b
    } else if g >= r {
        g
    } else {
        r
    };
    (pixel & 0x00FF_FFFF) | (coverage << 24)
}

/// Sets the alpha of every pixel of a frame to its coverage.
pub fn apply_coverage_alpha(pixels: &mut [u32])
    ensures
        final(pixels)@.len() == old(pixels)@.len(),
        forall|i: int|
            0 <= i < old(pixels)@.len() ==> #[trigger] final(pixels)@[i] == with_coverage_alpha(
                old(pixels)@[i],
            ),
{
    let n = pixels.len();
    let mut k: usize = 0;
    while k < n
        invariant
            k <= n == pixels@.len() == old(pixels)@.len(),
            forall|i: int| 0 <= i < k ==> #[trigger] pixels@[i] == with_coverage_alpha(
                old(pixels)@[i],
            ),
            forall|i: int| k <= i < n ==> #[trigger] pixels@[i] == old(pixels)@[i],
        decreases n - k,
    {
        let v = coverage_alpha(pixels[k]);
        pixels[k] = v;
        k = k + 1;
    }
}

/// The colour of a pixel stays, and its alpha is its brightest channel.
pub proof fn lemma_coverage_alpha(pixel: u32)
    ensures
        with_coverage_alpha(pixel) & 0x00FF_FFFF == pixel & 0x00FF_FFFF,
        with_coverage_alpha(pixel) >> 24 == coverage_of(pixel),
        coverage_of(pixel) <= 255,
{
    let b = pixel & 255;
    let g = (pixel >> 8) & 255;
    let r = (pixel >> 16) & 255;
    assert(b <= 255 && g <= 255 && r <= 255) by (bit_vector)
        requires
            b == pixel & 255,
            g == (pixel >> 8) & 255,
            r == (pixel >> 16) & 255,
    ;
    let c = coverage_of(pixel);
    assert(((pixel & 0x00FF_FFFF) | (c << 24)) & 0x00FF_FFFF == pixel & 0x00FF_FFFF)
        by (bit_vector);
    assert(c <= 255 ==> ((pixel & 0x00FF_FFFF) | (c << 24)) >> 24 == c) by (bit_vector);
}

/// What a batch of shortcut keys did.
#[derive(Clone, Copy, Debug, PartialEq, Eq)]
pub struct KeyEffects {
    /// F12 was pressed: the overlay closes, and later keys are not handled.
    pub close: bool,
    /// Some key was pressed: the overlay redraws.
    pub changed: bool,
    /// The shown groups changed: the settings are saved.
    pub save: bool,
}

/// Key that closes the overlay.
pub const CLOSE_KEY: u32 = 12;

/// Key that hides or shows the overlay.
pub const HIDE_KEY: u32 = 6;

/// Key that toggles the shortcut guide.
pub const HELP_KEY: u32 = 7;

/// The keys handled before the first F12, or all keys without one.
pub open spec fn keys_before_close(keys: Seq<u32>) -> Seq<u32>
    decreases keys.len(),
{
    if keys.len() == 0 || keys[0] == CLOSE_KEY {
        Seq::empty()
    } else {
        seq![keys[0]] + keys_before_close(keys.drop_first())
    }
}

/// Hide, help and group toggles of a sequence of keys, and whether a group changed.
pub open spec fn keys_effect(
    hidden: bool,
    help: bool,
    c: Controls,
    keys: Seq<u32>,
) -> (bool, bool, Controls, bool)
    decreases keys.len(),
{
    if keys.len() == 0 {
        (hidden, help, c, false)
    } else {
        let (h, p, c1, s) = keys_effect(hidden, help, c, keys.drop_last());
        let k = keys.last();
        if k == HIDE_KEY {
            (!h, p, c1, s)
        } else if k == HELP_KEY {
            (h, !p, c1, s)
        } else {
            match crate::controls::key_toggled(c1, k) {
                Some(c2) => (h, p, c2, true),
                None => (h, p, c1, s),
            }
        }
    }
}

proof fn lemma_keys_before_close(keys: Seq<u32>, i: int)
    requires
        0 <= i <= keys.len(),
        forall|k: int| 0 <= k < i ==> #[trigger] keys[k] != CLOSE_KEY,
        i == keys.len() || keys[i] == CLOSE_KEY,
    ensures
        keys_before_close(keys) == keys.subrange(0, i),
    decreases i,
{
    if i > 0 {
        lemma_keys_before_close(keys.drop_first(), i - 1);
        assert(seq![keys[0]] + keys.drop_first().subrange(0, i - 1) =~= keys.subrange(0, i));
    } else {
        assert(keys.subrange(0, 0) =~= Seq::<u32>::empty());
    }
}

/// Handles the shortcut keys of one poll, in order: F6 hides or shows the overlay,
/// F7 toggles the guide, F12 closes, and the other keys toggle groups.
pub fn apply_keys(keys: &Vec<u32>, keyboard: &mut Keyboard, controls: &mut Controls) -> (res:
    KeyEffects)
    ensures
        res.close == keys@.contains(CLOSE_KEY),
        res.changed == (keys@.len() > 0),
        ({
            let (h, p, c, s) = keys_effect(
                old(keyboard)@.hidden,
                old(keyboard)@.help,
                *old(controls),
                keys_before_close(keys@),
            );
            &&& final(keyboard)@.hidden == h
            &&& final(keyboard)@.help == p
            &&& *final(controls) == c
            &&& res.save == s
        }),
        final(keyboard)@.previous == old(keyboard)@.previous,
        final(keyboard)@.hint_until == old(keyboard)@.hint_until,
        final(keyboard)@.next_refresh == old(keyboard)@.next_refresh,
{
    let mut save = false;
    let mut k: usize = 0;
    while k < keys.len()
        invariant
            k <= keys@.len(),
            forall|m: int| 0 <= m < k ==> #[trigger] keys@[m] != CLOSE_KEY,
            ({
                let (h, p, c, s) = keys_effect(
                    old(keyboard)@.hidden,
                    old(keyboard)@.help,
                    *old(controls),
                    keys@.subrange(0, k as int),
                );
                &&& keyboard@.hidden == h
                &&& keyboard@.help == p
                &&& *controls == c
                &&& save == s
            }),
            keyboard@.previous == old(keyboard)@.previous,
            keyboard@.hint_until == old(keyboard)@.hint_until,
            keyboard@.next_refresh == old(keyboard)@.next_refresh,
        decreases keys@.len() - k,
    {
        let key = keys[k];
        proof {
            let pre = keys@.subrange(0, k as int + 1);
            assert(pre.drop_last() =~= keys@.subrange(0, k as int));
            assert(pre.last() == key);
        }
        if key == CLOSE_KEY {
            proof {
                lemma_keys_before_close(keys@, k as int);
            }
            return KeyEffects { close: true, changed: true, save };
        } else if key == HIDE_KEY {
            keyboard.toggle_hidden();
        } else if key == HELP_KEY {
            keyboard.toggle_help();
        } else {
            if controls.key_toggle(key) {
                save = true;
            }
        }
        k = k + 1;
    }
    proof {
        lemma_keys_before_close(keys@, keys@.len() as int);
        assert(keys@.subrange(0, keys@.len() as int) =~= keys@);
    }
    KeyEffects { close: false, changed: keys.len() > 0, save }
}

/// When to try attaching to the game process again.
pub struct Reattach {
    pub next_attach: u64,
}

impl Reattach {
    /// An attempt is due at once.
    pub fn new(now: u64) -> (res: Reattach)
        ensures
            res.next_attach == now,
    {
        Reattach { next_attach: now }
    }

    /// The game process ended: the next attempt is due at once.
    pub fn lost(&mut self, now: u64)
        ensures
            final(self).next_attach == now,
    {
        self.next_attach = now;
    }

    /// Whether an attempt is due; a due attempt schedules the next one two seconds later.
    pub fn due(&mut self, now: u64) -> (res: bool)
        ensures
            res == (now >= old(self).next_attach),
            final(self).next_attach == if res {
                if now + ATTACH_RETRY_NS <= u64::MAX {
                    (now + ATTACH_RETRY_NS) as u64
                } else {
                    u64::MAX
                }
            } else {
                old(self).next_attach
            },
    {
        if now >= self.next_attach {
            self.next_attach = now.saturating_add(ATTACH_RETRY_NS);
            true
        } else {
            false
        }
    }
}

} // verus!
