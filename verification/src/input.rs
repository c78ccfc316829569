use std::collections::HashMap;

use vstd::prelude::*;

verus! {

/// A button of the joypad.
#[derive(Copy, Clone, Debug, PartialEq, Eq, Hash, Structural)]
pub enum Button {
    B,
    Y,
    Select,
    Start,
    Up,
    Down,
    Left,
    Right,
    A,
    X,
    L,
    R,
    L2,
    R2,
    L3,
    R3,
}

/// How one held button repeats: the delay before the first repeat, the delay
/// between later repeats, and whether a repeat is pending.
#[derive(Copy, Clone, Debug, PartialEq, Eq, Structural)]
pub struct KeyRepeater {
    pub key: Button,
    pub initial_repeat_ms: u64,
    pub subsequent_repeat_ms: u64,
    pub repeating: bool,
}

impl KeyRepeater {
    /// A repeater for `key` with no repeat pending.
    pub fn new(key: Button, initial_repeat_ms: u64, subsequent_repeat_ms: u64) -> (r: Self)
        ensures
            r.key == key,
            r.initial_repeat_ms == initial_repeat_ms,
            r.subsequent_repeat_ms == subsequent_repeat_ms,
            !r.repeating,
    {
        KeyRepeater { key, initial_repeat_ms, subsequent_repeat_ms, repeating: false }
    }
}

/// The repeaters of a sequence collected by key, a later one replacing an
/// earlier one with the same key.
pub open spec fn repeater_map(s: Seq<KeyRepeater>) -> Map<Button, KeyRepeater>
    decreases s.len(),
{
    if s.len() == 0 {
        Map::empty()
    } else {
        repeater_map(s.drop_last()).insert(s.last().key, s.last())
    }
}

/// The repeaters after a press of `button`, and the delay after which the
/// press repeats: for a repeating button, the first delay if no repeat was
/// pending and the later one if one was, a repeat being pending from then on;
/// `None` and no change for other buttons.
pub open spec fn after_key_press(keys: Map<Button, KeyRepeater>, button: Button) -> (
    Map<Button, KeyRepeater>,
    Option<u64>,
) {
    match keys.get(button) {
        Some(k) => (
            keys.insert(button, KeyRepeater { repeating: true, ..k }),
            Some(
                if k.repeating {
                    k.subsequent_repeat_ms
                } else {
                    k.initial_repeat_ms
                },
            ),
        ),
        None => (keys, None),
    }
}

/// The repeaters after a release of `button`, and whether it is a repeating
/// button (whose pending repeat the caller then cancels).
pub open spec fn after_key_release(keys: Map<Button, KeyRepeater>, button: Button) -> (
    Map<Button, KeyRepeater>,
    bool,
) {
    match keys.get(button) {
        Some(k) => (keys.insert(button, KeyRepeater { repeating: false, ..k }), true),
        None => (keys, false),
    }
}

/// The code under which the repeater of a button is kept.
pub open spec fn button_code(b: Button) -> u8 {
    match b {
        Button::B => 0,
        Button::Y => 1,
        Button::Select => 2,
        Button::Start => 3,
        Button::Up => 4,
        Button::Down => 5,
        Button::Left => 6,
        Button::Right => 7,
        Button::A => 8,
        Button::X => 9,
        Button::L => 10,
        Button::R => 11,
        Button::L2 => 12,
        Button::R2 => 13,
        Button::L3 => 14,
        Button::R3 => 15,
    }
}

/// Different buttons have different codes.
proof fn lemma_button_code_injective(a: Button, b: Button)
    ensures
        button_code(a) == button_code(b) ==> a == b,
{
}

/// The code under which the repeater of `b` is kept.
fn code_of(b: Button) -> (c: u8)
    ensures
        c == button_code(b),
{
    match b {
        Button::B => 0,
        Button::Y => 1,
        Button::Select => 2,
        Button::Start => 3,
        Button::Up => 4,
        Button::Down => 5,
        Button::Left => 6,
        Button::Right => 7,
        Button::A => 8,
        Button::X => 9,
        Button::L => 10,
        Button::R => 11,
        Button::L2 => 12,
        Button::R2 => 13,
        Button::L3 => 14,
        Button::R3 => 15,
    }
}

/// The repeaters by button of a map kept by button code.
pub open spec fn by_button(m: Map<u8, KeyRepeater>) -> Map<Button, KeyRepeater> {
    Map::new(|b: Button| m.contains_key(button_code(b)), |b: Button| m[button_code(b)])
}

/// Storing `r` under its key's code stores it under its key.
proof fn lemma_by_button_insert(m: Map<u8, KeyRepeater>, r: KeyRepeater)
    ensures
        by_button(m.insert(button_code(r.key), r)) == by_button(m).insert(r.key, r),
{
    assert forall|b: Button| #[trigger] button_code(b) == button_code(r.key) implies b == r.key by {
        lemma_button_code_injective(b, r.key);
    }
    assert(by_button(m.insert(button_code(r.key), r)) =~= by_button(m).insert(r.key, r));
}

/// The repeaters of the buttons that repeat while held, one per button, kept
/// by button code.
pub struct KeysRepeater {
    repeaters: HashMap<u8, KeyRepeater>,
}

impl View for KeysRepeater {
    type V = Map<Button, KeyRepeater>;

    closed spec fn view(&self) -> Map<Button, KeyRepeater> {
        by_button(self.repeaters@)
    }
}

impl KeysRepeater {
    /// Each button's repeater is kept under that button's code.
    pub closed spec fn wf(&self) -> bool {
        forall|b: Button|
            #[trigger] self.repeaters@.contains_key(button_code(b)) ==> self.repeaters@[button_code(
                b,
            )].key == b
    }

    /// Collects the given repeaters by key, a later one replacing an earlier
    /// one with the same key.
    pub fn new(repeaters: Vec<KeyRepeater>) -> (r: Self)
        ensures
            r.wf(),
            r@ == repeater_map(repeaters@),
    {
        broadcast use vstd::std_specs::hash::group_hash_axioms;

        let mut map: HashMap<u8, KeyRepeater> = HashMap::new();
        let n = repeaters.len();
        proof {
            assert(by_button(map@) =~= repeater_map(repeaters@.take(0)));
        }
        for i in 0..n
            invariant
                n == repeaters@.len(),
                forall|b: Button|
                    #[trigger] map@.contains_key(button_code(b)) ==> map@[button_code(b)].key == b,
                by_button(map@) == repeater_map(repeaters@.take(i as int)),
        {
            let r = repeaters[i];
            let ghost before = map@;
            map.insert(code_of(r.key), r);
            proof {
                lemma_by_button_insert(before, r);
                assert(repeaters@.take(i + 1).drop_last() == repeaters@.take(i as int));
                assert(repeaters@.take(i + 1).last() == r);
                assert forall|b: Button| #[trigger] map@.contains_key(button_code(b)) implies map@[button_code(
                    b,
                )].key == b by {
                    lemma_button_code_injective(b, r.key);
                }
            }
        }
        assert(repeaters@.take(n as int) == repeaters@);
        KeysRepeater { repeaters: map }
    }

    /// A press of `button`: for a repeating button, the delay after which the
    /// press repeats (the first delay if no repeat was pending, else the later
    /// one), and a repeat is now pending. Other buttons give `None`.
    pub fn queue_repeat(&mut self, button: Button) -> (delay_ms: Option<u64>)
        requires
            old(self).wf(),
        ensures
            final(self).wf(),
            (final(self)@, delay_ms) == after_key_press(old(self)@, button),
    {
        broadcast use vstd::std_specs::hash::group_hash_axioms;

        let code = code_of(button);
        match self.repeaters.get(&code) {
            Some(k) => {
                let k = *k;
                let delay = if !k.repeating {
                    k.initial_repeat_ms
                } else {
                    k.subsequent_repeat_ms
                };
                let updated = KeyRepeater { repeating: true, ..k };
                let ghost before = self.repeaters@;
                proof {
                    assert(by_button(before).contains_key(button));
                    lemma_by_button_insert(before, updated);
                }
                self.repeaters.insert(code, updated);
                proof {
                    assert forall|b: Button| #[trigger] self.repeaters@.contains_key(button_code(b)) implies self.repeaters@[button_code(
                        b,
                    )].key == b by {
                        lemma_button_code_injective(b, button);
                    }
                }
                Some(delay)
            },
            None => None,
        }
    }

    /// A release of `button`: for a repeating button, its pending repeat is
    /// dropped and the result is `true` (the caller cancels the scheduled
    /// repeat); other buttons give `false`.
    pub fn cancel_repeat(&mut self, button: Button) -> (known: bool)
        requires
            old(self).wf(),
        ensures
            final(self).wf(),
            (final(self)@, known) == after_key_release(old(self)@, button),
    {
        broadcast use vstd::std_specs::hash::group_hash_axioms;

        let code = code_of(button);
        match self.repeaters.get(&code) {
            Some(k) => {
                let updated = KeyRepeater { repeating: false, ..*k };
                let ghost before = self.repeaters@;
                proof {
                    assert(by_button(before).contains_key(button));
                    lemma_by_button_insert(before, updated);
                }
                self.repeaters.insert(code, updated);
                proof {
                    assert forall|b: Button| #[trigger] self.repeaters@.contains_key(button_code(b)) implies self.repeaters@[button_code(
                        b,
                    )].key == b by {
                        lemma_button_code_injective(b, button);
                    }
                }
                true
            },
            None => false,
        }
    }
}

/// After a release, the next press of a repeating button waits the first
/// delay again.
pub proof fn lemma_release_restarts_delay(keys: Map<Button, KeyRepeater>, button: Button)
    requires
        keys.dom().contains(button),
    ensures
        after_key_press(after_key_release(keys, button).0, button).1 == Some(
            keys[button].initial_repeat_ms,
        ),
{
}

/// While a button stays held, every repeat after the first waits the later delay.
pub proof fn lemma_held_key_repeats_at_later_delay(keys: Map<Button, KeyRepeater>, button: Button)
    requires
        keys.dom().contains(button),
    ensures
        after_key_press(after_key_press(keys, button).0, button).1 == Some(
            keys[button].subsequent_repeat_ms,
        ),
{
}

} // verus!
