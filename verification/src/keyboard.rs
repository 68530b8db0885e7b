//! Global keyboard shortcuts: Ctrl+Alt with a function key, seen as key presses.
use vstd::prelude::*;

verus! {

/// How long after start the shortcut hint shows.
pub const HINT_NS: u64 = 10_000_000_000;

/// Interval between overlay refreshes without a key press.
pub const REFRESH_NS: u64 = 250_000_000;

/// Number of function keys watched, F1 to F12.
pub const FUNCTION_KEYS: u32 = 12;

/// The on-screen shortcut guide.
pub const HELP_TEXT: &'static str = "Ctrl+Alt: F1 Name | F2 Day | F3 Network\nF6 Hide/show | F7 Help | F12 Close overlay";

/// The shortcut guide of the extended build.
pub const EXTENDED_HELP_TEXT: &'static str = "Ctrl+Alt: F1 Name | F2 Day | F3 Network\nF4 Health | F5 Distance | F6 Hide/show\nF7 Help | F12 Close overlay";

/// The brief startup hint.
pub const STARTUP_HINT: &'static str = "Ctrl+Alt+F7: shortcuts | Ctrl+Alt+F12: close";

/// Whether function key `i` (0 for F1) is down in a mask.
pub open spec fn key_down(mask: u16, i: u32) -> bool {
    mask & (1u16 << i) != 0
}

/// The keys (1 for F1) whose bits are set among the first `n`, in order.
pub open spec fn keys_in(mask: u16, n: u32) -> Seq<u32>
    decreases n,
{
    if n == 0 {
        Seq::empty()
    } else if key_down(mask, (n - 1) as u32) {
        keys_in(mask, (n - 1) as u32).push(n)
    } else {
        keys_in(mask, (n - 1) as u32)
    }
}

/// The keys pressed since the previous mask: down now, up before.
pub open spec fn new_presses(previous: u16, down: u16) -> Seq<u32> {
    keys_in(down & !previous, FUNCTION_KEYS)
}

/// The text under the overlay: the guide while help is on, else the startup hint
/// until its deadline.
pub open spec fn hint_text(k: KeyboardView, now: u64) -> Option<Seq<char>> {
    if k.help {
        Some(
            if crate::EXTENDED {
                EXTENDED_HELP_TEXT@
            } else {
                HELP_TEXT@
            },
        )
    } else if now < k.hint_until {
        Some(STARTUP_HINT@)
    } else {
        None
    }
}

/// Shortcut state: which keys were down, and the overlay's hide and help toggles.
pub struct Keyboard {
    previous: u16,
    pub hidden: bool,
    pub help: bool,
    hint_until: u64,
    pub next_refresh: u64,
}

/// A keyboard state by plain values.
pub struct KeyboardView {
    /// The keys that were down at the last poll.
    pub previous: u16,
    pub hidden: bool,
    pub help: bool,
    /// Until when the startup hint shows.
    pub hint_until: u64,
    pub next_refresh: u64,
}

impl View for Keyboard {
    type V = KeyboardView;

    closed spec fn view(&self) -> KeyboardView {
        KeyboardView {
            previous: self.previous,
            hidden: self.hidden,
            help: self.help,
            hint_until: self.hint_until,
            next_refresh: self.next_refresh,
        }
    }
}

impl Keyboard {

    /// A keyboard state at start, `now` on a monotonic nanosecond clock.
    pub fn new(now: u64) -> (res: Keyboard)
        ensures
            res@.previous == 0,
            !res@.hidden,
            !res@.help,
            res@.hint_until == if now + HINT_NS <= u64::MAX {
                now + HINT_NS
            } else {
                u64::MAX as int
            },
            res@.next_refresh == now,
    {
        Keyboard {
            previous: 0,
            hidden: false,
            help: false,
            hint_until: now.saturating_add(HINT_NS),
            next_refresh: now,
        }
    }

    /// Whether the overlay is hidden.
    pub fn is_hidden(&self) -> (res: bool)
        ensures
            res == self@.hidden,
    {
        self.hidden
    }

    /// Hides the overlay, or shows it again.
    pub fn toggle_hidden(&mut self)
        ensures
            final(self)@ == (KeyboardView { hidden: !old(self)@.hidden, ..old(self)@ }),
    {
        self.hidden = !self.hidden;
    }

    /// Shows the shortcut guide, or stops showing it.
    pub fn toggle_help(&mut self)
        ensures
            final(self)@ == (KeyboardView { help: !old(self)@.help, ..old(self)@ }),
    {
        self.help = !self.help;
    }

    /// The function keys (1 for F1) pressed since the last poll, given the keys down now.
    /// A key held down is reported once.
    pub fn edges(&mut self, down: u16) -> (res: Vec<u32>)
        ensures
            res@ == new_presses(old(self)@.previous, down),
            final(self)@ == (KeyboardView { previous: down, ..old(self)@ }),
    {
        let pressed: u16 = down & !self.previous;
        self.previous = down;
        let mut keys: Vec<u32> = Vec::new();
        let mut i: u32 = 0;
        while i < FUNCTION_KEYS
            invariant
                i <= FUNCTION_KEYS,
                keys@ == keys_in(pressed, i),
            decreases FUNCTION_KEYS - i,
        {
            if pressed & (1u16 << i) != 0 {
                keys.push(i + 1);
            }
            i = i + 1;
        }
        keys
    }

    /// The text to show under the overlay: the shortcut guide while help is on,
    /// otherwise the startup hint during its first seconds.
    pub fn hint(&self, now: u64) -> (res: Option<&'static str>)
        ensures
            self@.help ==> res == Some(
                if crate::EXTENDED {
                    EXTENDED_HELP_TEXT
                } else {
                    HELP_TEXT
                },
            ),
            !self@.help && now < self@.hint_until ==> res == Some(STARTUP_HINT),
            !self@.help && now >= self@.hint_until ==> res is None,
            match res {
                Some(h) => hint_text(self@, now) == Some(h@),
                None => hint_text(self@, now) is None,
            },
    {
        if self.help {
            Some(
                if crate::EXTENDED {
                    EXTENDED_HELP_TEXT
                } else {
                    HELP_TEXT
                },
            )
        } else if now < self.hint_until {
            Some(STARTUP_HINT)
        } else {
            None
        }
    }

    /// Whether the overlay is due for a refresh: after a key press, or once the
    /// refresh interval has passed. A due refresh schedules the next one.
    pub fn refresh_due(&mut self, changed: bool, now: u64) -> (res: bool)
        ensures
            res == (changed || now >= old(self)@.next_refresh),
            final(self)@ == (KeyboardView {
                next_refresh: if res {
                    if now + REFRESH_NS <= u64::MAX {
                        (now + REFRESH_NS) as u64
                    } else {
                        u64::MAX
                    }
                } else {
                    old(self)@.next_refresh
                },
                ..old(self)@
            }),
    {
        if changed || now >= self.next_refresh {
            self.next_refresh = now.saturating_add(REFRESH_NS);
            true
        } else {
            false
        }
    }
}

/// A key held down is reported once: polling again with the same keys down
/// reports nothing.
pub proof fn lemma_held_key_reported_once(down: u16)
    ensures
        new_presses(down, down) == Seq::<u32>::empty(),
{
    assert(down & !down == 0u16) by (bit_vector);
    lemma_no_keys(FUNCTION_KEYS);
}

proof fn lemma_no_keys(n: u32)
    requires
        n <= 16,
    ensures
        keys_in(0u16, n) == Seq::<u32>::empty(),
    decreases n,
{
    if n > 0 {
        let i = (n - 1) as u32;
        assert(0u16 & (1u16 << i) == 0u16) by (bit_vector);
        lemma_no_keys(i);
    }
}

proof fn lemma_set_bit(d: u16, i: u32, j: u32)
    requires
        i < 16,
        j < 16,
    ensures
        ((d | (1u16 << i)) & (1u16 << j) != 0) == (j == i || d & (1u16 << j) != 0),
{
    assert(((d | (1u16 << i)) & (1u16 << j) != 0) == (j == i || d & (1u16 << j) != 0))
        by (bit_vector)
        requires
            i < 16,
            j < 16,
    ;
}

/// The mask of the function keys down while the Ctrl+Alt chord is held: bit `i`
/// for key F(i+1); nothing without the chord.
pub fn key_mask(chord_held: bool, keys: [bool; 12]) -> (res: u16)
    ensures
        forall|i: u32| i < FUNCTION_KEYS ==> #[trigger] key_down(res, i) == (chord_held && keys@[i as int]),
        forall|i: u32| FUNCTION_KEYS <= i < 16 ==> !#[trigger] key_down(res, i),
{
    let mut down: u16 = 0;
    if !chord_held {
        proof {
            assert forall|i: u32| i < 16 implies !#[trigger] key_down(down, i) by {
                assert(0u16 & (1u16 << i) == 0u16) by (bit_vector);
            }
        }
        return down;
    }
    let mut i: u32 = 0;
    proof {
        assert forall|j: u32| j < 16 implies !#[trigger] key_down(down, j) by {
            assert(0u16 & (1u16 << j) == 0u16) by (bit_vector);
        }
    }
    while i < FUNCTION_KEYS
        invariant
            i <= FUNCTION_KEYS,
            forall|j: u32| j < i ==> #[trigger] key_down(down, j) == keys@[j as int],
            forall|j: u32| i <= j < 16 ==> !#[trigger] key_down(down, j),
        decreases FUNCTION_KEYS - i,
    {
        let ghost before = down;
        if keys[i as usize] {
            down = down | (1u16 << i);
            proof {
                assert forall|j: u32| j < 16 implies #[trigger] key_down(down, j) == (j == i
                    || key_down(before, j)) by {
                    lemma_set_bit(before, i, j);
                }
            }
        }
        i = i + 1;
    }
    down
}

} // verus!
