use vstd::prelude::*;
use vstd::utf8::*;

use crate::application::savegame::{NewHighScore, Savegame, first_lower, table_view};
use crate::input::{
    Button,
    KeyRepeater,
    KeysRepeater,
    after_key_press,
    after_key_release,
    repeater_map,
};
use crate::screens::transitions::Loaded;

verus! {

/// What a press on the high-score screen leads to: back to the title, or a
/// name entered for the new score.
pub enum HighScoreEvent {
    Loaded(Loaded),
    NewHighScore(NewHighScore),
}

/// What one line of the high-score table shows: a saved entry, or the score
/// just made with the name being entered.
#[derive(Copy, Clone, Debug, PartialEq, Eq, Structural)]
pub enum RowContent {
    Saved(usize),
    NewScore,
}

/// A line of the table: its place from the top and what it shows.
#[derive(Copy, Clone, Debug, PartialEq, Eq, Structural)]
pub struct ScoreRow {
    pub slot: usize,
    pub content: RowContent,
}

/// The high-score screen as the contracts see it.
#[verifier::ext_equal]
pub struct HighScoreModel {
    pub high_scores: Seq<(Seq<u8>, u32)>,
    pub score: u32,
    pub score_submitted: bool,
    pub new_score_name: Seq<char>,
    pub current_letter: char,
    pub keys: Map<Button, KeyRepeater>,
}

/// A capital letter of the name being entered.
pub open spec fn is_letter(c: char) -> bool {
    'A' <= c <= 'Z'
}

impl HighScoreModel {
    /// The letter under the cursor is a capital or a space, the name holds
    /// capitals only, and it reaches five letters only once submitted.
    pub open spec fn wf(self) -> bool {
        &&& self.current_letter == ' ' || is_letter(self.current_letter)
        &&& forall|i: int|
            0 <= i < self.new_score_name.len() ==> is_letter(#[trigger] self.new_score_name[i])
        &&& self.new_score_name.len() <= 5
        &&& !self.score_submitted ==> self.new_score_name.len() < 5
    }
}

/// The letter under the cursor after Left or Right: the alphabet runs from A
/// to Z with a space beyond each end.
pub open spec fn next_letter(c: char, input: Button) -> char {
    if c == ' ' {
        if input == Button::Right {
            'A'
        } else if input == Button::Left {
            'Z'
        } else {
            ' '
        }
    } else if input == Button::Right {
        if c == 'Z' {
            ' '
        } else {
            ((c as u32) + 1) as char
        }
    } else if input == Button::Left {
        if c == 'A' {
            ' '
        } else {
            ((c as u32) - 1) as char
        }
    } else {
        c
    }
}

/// The name entered with A or B: a space ends the name; a letter is added,
/// and the fifth ends the name. Nothing once a name was entered, nor for
/// other buttons.
pub open spec fn submitted_entry(m: HighScoreModel, button: Button) -> Option<(Seq<char>, u32)> {
    if (button == Button::A || button == Button::B) && !m.score_submitted {
        if m.current_letter == ' ' {
            Some((m.new_score_name, m.score))
        } else if m.new_score_name.len() + 1 == 5 {
            Some((m.new_score_name.push(m.current_letter), m.score))
        } else {
            None
        }
    } else {
        None
    }
}

/// The screen after a press of `button` (apart from the key repeats).
pub open spec fn after_press(m: HighScoreModel, button: Button) -> HighScoreModel {
    if button == Button::Right || button == Button::Left {
        HighScoreModel { current_letter: next_letter(m.current_letter, button), ..m }
    } else if (button == Button::A || button == Button::B) && !m.score_submitted {
        if m.current_letter == ' ' {
            HighScoreModel { score_submitted: true, ..m }
        } else {
            let name = m.new_score_name.push(m.current_letter);
            HighScoreModel { new_score_name: name, score_submitted: name.len() == 5, ..m }
        }
    } else {
        m
    }
}

/// The lines of the table with the new score `score` shown before the first
/// saved entry it beats, the entries below moving down and the last line
/// falling off; where it beats none, just the saved entries.
pub open spec fn layout(t: Seq<(Seq<u8>, u32)>, score: u32) -> Seq<ScoreRow> {
    if exists|p: int| first_lower(t, score, p) {
        let p = choose|p: int| first_lower(t, score, p);
        Seq::new(p as nat, |i: int| ScoreRow { slot: i as usize, content: RowContent::Saved(i as usize) })
            + seq![ScoreRow { slot: p as usize, content: RowContent::NewScore }] + Seq::new(
            (4 - p) as nat,
            |i: int| ScoreRow { slot: (p + 1 + i) as usize, content: RowContent::Saved((p + i) as usize) },
        )
    } else {
        Seq::new(5, |i: int| ScoreRow { slot: i as usize, content: RowContent::Saved(i as usize) })
    }
}

/// Right then Left, or Left then Right, brings the cursor letter back.
pub proof fn lemma_letter_steps_undo(c: char)
    requires
        c == ' ' || is_letter(c),
    ensures
        next_letter(next_letter(c, Button::Right), Button::Left) == c,
        next_letter(next_letter(c, Button::Left), Button::Right) == c,
{
    if is_letter(c) && c != 'Z' {
        let up = ((c as u32) + 1) as char;
        assert(up as u32 == (c as u32) + 1);
        assert(up != ' ' && up != 'A');
        assert(((up as u32) - 1) as char == c);
    }
    if is_letter(c) && c != 'A' {
        let down = ((c as u32) - 1) as char;
        assert(down as u32 == (c as u32) - 1);
        assert(down != ' ' && down != 'Z');
        assert(((down as u32) + 1) as char == c);
    }
}

/// The cursor letter after `n` presses of Right.
pub open spec fn letter_after_rights(c: char, n: nat) -> char
    decreases n,
{
    if n == 0 {
        c
    } else {
        next_letter(letter_after_rights(c, (n - 1) as nat), Button::Right)
    }
}

proof fn lemma_rights_compose(c: char, a: nat, b: nat)
    ensures
        letter_after_rights(c, a + b) == letter_after_rights(letter_after_rights(c, a), b),
    decreases b,
{
    if b > 0 {
        lemma_rights_compose(c, a, (b - 1) as nat);
        assert((a + b - 1) as nat == a + (b - 1) as nat);
    }
}

proof fn lemma_rights_within_alphabet(u: u32, k: nat)
    requires
        'A' as u32 <= u,
        u + k <= 'Z' as u32,
    ensures
        letter_after_rights(u as char, k) == (u + k) as char,
    decreases k,
{
    if k > 0 {
        lemma_rights_within_alphabet(u, (k - 1) as nat);
        let prev = (u + k - 1) as char;
        assert(prev as u32 == u + k - 1);
        assert(prev != ' ' && prev != 'Z');
    }
}

/// Twenty-seven presses of Right go once round the alphabet and the space
/// and bring the cursor letter back.
pub proof fn lemma_letter_wheel_cycles(c: char)
    requires
        c == ' ' || is_letter(c),
    ensures
        letter_after_rights(c, 27) == c,
{
    let a = 'A' as u32;
    let z = 'Z' as u32;
    lemma_rights_within_alphabet(a, 25);
    assert((a + 25) as char == 'Z');
    assert(a as char == 'A');
    assert(letter_after_rights(' ', 1) == 'A') by {
        assert(letter_after_rights(' ', 0) == ' ');
    }
    assert(letter_after_rights('Z', 1) == ' ') by {
        assert(letter_after_rights('Z', 0) == 'Z');
    }
    if c == ' ' {
        lemma_rights_compose(' ', 1, 25);
        lemma_rights_compose(' ', 26, 1);
    } else {
        let u = c as u32;
        assert(u as char == c);
        lemma_rights_within_alphabet(u, (z - u) as nat);
        assert((u + (z - u)) as char == 'Z');
        lemma_rights_within_alphabet(a, (u - a) as nat);
        assert((a + (u - a)) as char == c);
        lemma_rights_compose(c, (z - u) as nat, 1);
        lemma_rights_compose(c, (z - u + 1) as nat, 1);
        lemma_rights_compose(c, (z - u + 2) as nat, (u - a) as nat);
        assert((z - u + 2) as nat + (u - a) as nat == 27);
    }
}

/// The screen after `n` presses of Right.
pub open spec fn after_rights(m: HighScoreModel, n: nat) -> HighScoreModel
    decreases n,
{
    if n == 0 {
        m
    } else {
        after_press(after_rights(m, (n - 1) as nat), Button::Right)
    }
}

proof fn lemma_after_rights_moves_letter(m: HighScoreModel, n: nat)
    ensures
        after_rights(m, n) == (HighScoreModel {
            current_letter: letter_after_rights(m.current_letter, n),
            ..m
        }),
    decreases n,
{
    if n > 0 {
        lemma_after_rights_moves_letter(m, (n - 1) as nat);
    } else {
        assert(after_rights(m, 0) =~= HighScoreModel {
            current_letter: letter_after_rights(m.current_letter, 0),
            ..m
        });
    }
}

/// On the high-score screen, Right then Left, or Left then Right, gives the
/// screen back.
pub proof fn lemma_press_right_then_left_restores(m: HighScoreModel)
    requires
        m.wf(),
    ensures
        after_press(after_press(m, Button::Right), Button::Left) == m,
        after_press(after_press(m, Button::Left), Button::Right) == m,
{
    lemma_letter_steps_undo(m.current_letter);
    assert(after_press(after_press(m, Button::Right), Button::Left) =~= m);
    assert(after_press(after_press(m, Button::Left), Button::Right) =~= m);
}

/// On the high-score screen, twenty-seven presses of Right give the screen back.
pub proof fn lemma_twenty_seven_rights_restore(m: HighScoreModel)
    requires
        m.wf(),
    ensures
        after_rights(m, 27) == m,
{
    lemma_after_rights_moves_letter(m, 27);
    lemma_letter_wheel_cycles(m.current_letter);
    assert(after_rights(m, 27) =~= m);
}

/// The table always shows five lines, from the top one down.
pub proof fn lemma_layout_lines(t: Seq<(Seq<u8>, u32)>, score: u32)
    requires
        t.len() == 5,
    ensures
        layout(t, score).len() == 5,
        forall|i: int| 0 <= i < 5 ==> #[trigger] layout(t, score)[i].slot == i,
{
}

/// Where the new score beats an entry, the table shows it in place of the
/// first entry it beats, the entries above in their places and the entries
/// below one place lower, the last one gone.
pub proof fn lemma_new_score_shown_in_place(t: Seq<(Seq<u8>, u32)>, score: u32, p: int)
    requires
        t.len() == 5,
        0 <= p < 5,
        t[p].1 < score,
        forall|j: int| 0 <= j < p ==> t[j].1 >= score,
    ensures
        layout(t, score).len() == 5,
        layout(t, score)[p] == (ScoreRow { slot: p as usize, content: RowContent::NewScore }),
        forall|i: int|
            0 <= i < p ==> #[trigger] layout(t, score)[i] == (ScoreRow {
                slot: i as usize,
                content: RowContent::Saved(i as usize),
            }),
        forall|i: int|
            p < i < 5 ==> #[trigger] layout(t, score)[i] == (ScoreRow {
                slot: i as usize,
                content: RowContent::Saved((i - 1) as usize),
            }),
{
    assert(first_lower(t, score, p));
    assert forall|q: int| first_lower(t, score, q) implies q == p by {
        if q < p {
            assert(t[q].1 >= score);
        } else if q > p {
            assert(t[p].1 >= score);
        }
    }
}

/// Where the new score beats no entry, the table shows the saved entries only.
pub proof fn lemma_low_score_not_shown(t: Seq<(Seq<u8>, u32)>, score: u32)
    requires
        t.len() == 5,
        forall|j: int| 0 <= j < 5 ==> t[j].1 >= score,
    ensures
        layout(t, score).len() == 5,
        forall|i: int|
            0 <= i < 5 ==> #[trigger] layout(t, score)[i] == (ScoreRow {
                slot: i as usize,
                content: RowContent::Saved(i as usize),
            }),
{
}

/// The new score is shown exactly where entering it in the table puts it.
pub proof fn lemma_layout_matches_entry(t: Seq<(Seq<u8>, u32)>, e: (Seq<u8>, u32), p: int)
    requires
        t.len() == 5,
        0 <= p < 5,
        layout(t, e.1)[p].content == RowContent::NewScore,
    ensures
        crate::application::savegame::with_score(t, e)[p] == e,
        forall|i: int| 0 <= i < 5 && i != p ==> #[trigger] layout(t, e.1)[i].content != RowContent::NewScore,
{
}

/// `char::from_u32`: the character with code `u`, where there is one. The
/// contract claims what std documents: a character exists exactly for the
/// Unicode scalar values, and it has the code `u`.
#[verifier::external_body]
fn char_from_u32(u: u32) -> (c: Option<char>)
    ensures
        c is Some <==> (u <= 0xD7FF || (0xE000 <= u <= 0x10FFFF)),
        c matches Some(ch) ==> ch as u32 == u,
{
    char::from_u32(u)
}

/// `String::push`: the string with `c` appended, as std documents.
#[verifier::external_body]
fn push_char(s: &mut String, c: char)
    ensures
        final(s)@ == old(s)@.push(c),
{
    s.push(c)
}

/// The screen on which a name is entered for a new score, beside the table.
pub struct HighScoreScreen {
    high_scores: Savegame,
    score: u32,
    score_submitted: bool,
    new_score_name: String,
    current_letter: char,
    keys_repeater: KeysRepeater,
}

impl View for HighScoreScreen {
    type V = HighScoreModel;

    closed spec fn view(&self) -> HighScoreModel {
        HighScoreModel {
            high_scores: table_view(self.high_scores.high_scores),
            score: self.score,
            score_submitted: self.score_submitted,
            new_score_name: self.new_score_name@,
            current_letter: self.current_letter,
            keys: self.keys_repeater@,
        }
    }
}

impl HighScoreScreen {
    /// The invariant of the key repeater that the screen holds.
    pub closed spec fn keys_wf(&self) -> bool {
        self.keys_repeater.wf()
    }

    /// The screen's invariant.
    pub open spec fn wf(&self) -> bool {
        self@.wf() && self.keys_wf()
    }

    /// The screen for the score `score` beside the table `savegame`, with
    /// an empty name and the cursor on A.
    pub fn new(savegame: Savegame, score: u32) -> (s: Self)
        ensures
            s.wf(),
            s@.high_scores == table_view(savegame.high_scores),
            s@.score == score,
            !s@.score_submitted,
            s@.new_score_name.len() == 0,
            s@.current_letter == 'A',
            s@.keys == repeater_map(
                seq![
                    KeyRepeater { key: Button::Left, initial_repeat_ms: 300, subsequent_repeat_ms: 100, repeating: false },
                    KeyRepeater { key: Button::Right, initial_repeat_ms: 300, subsequent_repeat_ms: 100, repeating: false },
                ],
            ),
    {
        let mut repeaters: Vec<KeyRepeater> = Vec::new();
        repeaters.push(KeyRepeater::new(Button::Left, 300, 100));
        repeaters.push(KeyRepeater::new(Button::Right, 300, 100));
        let keys_repeater = KeysRepeater::new(repeaters);
        proof {
            assert(repeaters@ == seq![
                KeyRepeater { key: Button::Left, initial_repeat_ms: 300, subsequent_repeat_ms: 100, repeating: false },
                KeyRepeater { key: Button::Right, initial_repeat_ms: 300, subsequent_repeat_ms: 100, repeating: false },
            ]);
        }
        HighScoreScreen {
            high_scores: savegame,
            score,
            new_score_name: String::new(),
            score_submitted: false,
            current_letter: 'A',
            keys_repeater,
        }
    }

    /// Moves the cursor letter for Left or Right.
    fn update_letter(&mut self, input: Button)
        requires
            old(self).wf(),
        ensures
            final(self).wf(),
            final(self)@ == (HighScoreModel {
                current_letter: next_letter(old(self)@.current_letter, input),
                ..old(self)@
            }),
    {
        if self.current_letter == ' ' {
            if input == Button::Right {
                self.current_letter = 'A';
            } else if input == Button::Left {
                self.current_letter = 'Z';
            }
            return;
        }
        let mut repr: u32 = self.current_letter as u32;
        if input == Button::Right {
            repr = repr + 1;
        } else if input == Button::Left {
            repr = repr - 1;
        }
        let mut new_char = char_from_u32(repr).unwrap();
        let code: u32 = new_char as u32;
        let first: u32 = 'A' as u32;
        let last: u32 = 'Z' as u32;
        if code < first {
            new_char = ' ';
        }
        if code > last {
            new_char = ' ';
        }
        self.current_letter = new_char;
    }

    /// Ends the name entry and hands out the name with the score.
    fn set_name(&mut self) -> (ev: HighScoreEvent)
        requires
            old(self).keys_wf(),
        ensures
            final(self).keys_wf(),
            final(self)@ == (HighScoreModel { score_submitted: true, ..old(self)@ }),
            ev matches HighScoreEvent::NewHighScore(n) && n.0@ == old(self)@.new_score_name && n.1
                == old(self)@.score,
    {
        let name = self.new_score_name.clone();
        self.score_submitted = true;
        HighScoreEvent::NewHighScore(NewHighScore(name, self.score))
    }

    /// A press of `button`: Start goes back to the title; Left and Right move
    /// the cursor letter; A and B add it to the name, or end the name on a
    /// space or at five letters.
    pub fn press(&mut self, button: Button) -> (ev: Option<HighScoreEvent>)
        requires
            old(self).wf(),
        ensures
            final(self).wf(),
            final(self)@ == after_press(old(self)@, button),
            match ev {
                Some(HighScoreEvent::Loaded(_)) => button == Button::Start,
                Some(HighScoreEvent::NewHighScore(n)) => button != Button::Start && submitted_entry(
                    old(self)@,
                    button,
                ) == Some((n.0@, n.1)),
                None => button != Button::Start && submitted_entry(old(self)@, button) is None,
            },
    {
        let mut event: Option<HighScoreEvent> = None;
        if button == Button::Start {
            event = Some(HighScoreEvent::Loaded(Loaded()));
        }
        if button == Button::Right || button == Button::Left {
            self.update_letter(button);
        }
        if button == Button::A || button == Button::B {
            if self.score_submitted {
                return event;
            }
            if self.current_letter == ' ' {
                event = Some(self.set_name());
            } else {
                let letter = self.current_letter;
                push_char(&mut self.new_score_name, letter);
                proof {
                    is_ascii_chars_encode_utf8(self.new_score_name@);
                }
                if self.new_score_name.as_str().len() == 5 {
                    event = Some(self.set_name());
                }
            }
        }
        event
    }

    /// The name shown beside the new score: the letters entered and, until
    /// the name is entered, the letter under the cursor.
    pub fn entry_text(&self) -> (text: String)
        ensures
            text@ == if self@.score_submitted {
                self@.new_score_name
            } else {
                self@.new_score_name.push(self@.current_letter)
            },
    {
        let mut name = self.new_score_name.clone();
        if !self.score_submitted {
            push_char(&mut name, self.current_letter);
        }
        name
    }

    /// A press of `button` for the held-key repeats; see `KeysRepeater::queue_repeat`.
    pub fn key_pressed(&mut self, button: Button) -> (delay_ms: Option<u64>)
        requires
            old(self).wf(),
        ensures
            final(self).wf(),
            final(self)@ == (HighScoreModel { keys: final(self)@.keys, ..old(self)@ }),
            (final(self)@.keys, delay_ms) == after_key_press(old(self)@.keys, button),
    {
        self.keys_repeater.queue_repeat(button)
    }

    /// A release of `button` for the held-key repeats; see `KeysRepeater::cancel_repeat`.
    pub fn key_released(&mut self, button: Button) -> (known: bool)
        requires
            old(self).wf(),
        ensures
            final(self).wf(),
            final(self)@ == (HighScoreModel { keys: final(self)@.keys, ..old(self)@ }),
            (final(self)@.keys, known) == after_key_release(old(self)@.keys, button),
    {
        self.keys_repeater.cancel_repeat(button)
    }

    /// The saved table shown beside the new score.
    pub fn table(&self) -> (t: &Savegame)
        ensures
            table_view(t.high_scores) == self@.high_scores,
    {
        &self.high_scores
    }

    /// The score for which a name is entered.
    pub fn new_score(&self) -> (score: u32)
        ensures
            score == self@.score,
    {
        self.score
    }

    /// Whether the name was entered.
    pub fn is_submitted(&self) -> (submitted: bool)
        ensures
            submitted == self@.score_submitted,
    {
        self.score_submitted
    }

    /// The lines of the table in the order in which they are drawn.
    pub fn rows(&self) -> (rows: Vec<ScoreRow>)
        ensures
            rows@ == layout(self@.high_scores, self@.score),
    {
        let ghost t = self@.high_scores;
        let mut out: Vec<ScoreRow> = Vec::new();
        let mut new_score_drawn = false;
        for i in 0..5
            invariant
                t == table_view(self.high_scores.high_scores),
                new_score_drawn <==> exists|j: int| 0 <= j < i && t[j].1 < self.score,
                !new_score_drawn ==> out@ == Seq::new(
                    i as nat,
                    |k: int| ScoreRow { slot: k as usize, content: RowContent::Saved(k as usize) },
                ),
                new_score_drawn ==> exists|p: int|
                    #![trigger first_lower(t, self.score, p)]
                    first_lower(t, self.score, p) && p < i && out@ == Seq::new(
                        p as nat,
                        |k: int| ScoreRow { slot: k as usize, content: RowContent::Saved(k as usize) },
                    ) + seq![ScoreRow { slot: p as usize, content: RowContent::NewScore }]
                        + Seq::new(
                        (if i <= 4 {
                            i
                        } else {
                            4
                        } - p) as nat,
                        |k: int|
                            ScoreRow {
                                slot: (p + 1 + k) as usize,
                                content: RowContent::Saved((p + k) as usize),
                            },
                    ),
        {
            assert(t[i as int].1 == self.high_scores.high_scores@[i as int].score);
            if self.score > self.high_scores.high_scores[i].score && !new_score_drawn {
                proof {
                    assert(first_lower(t, self.score, i as int));
                }
                out.push(ScoreRow { slot: i, content: RowContent::NewScore });
                new_score_drawn = true;
            }
            let slot = i + if new_score_drawn {
                1
            } else {
                0
            };
            if slot < 5 {
                out.push(ScoreRow { slot, content: RowContent::Saved(i) });
            }
        }
        out
    }
}

/// The height at which the line in `slot` of the table is drawn.
pub fn row_y(slot: usize) -> (y: i32)
    requires
        slot <= 5,
    ensures
        y == 120 - 16 * slot,
{
    120 - (slot as i32) * 16
}

} // verus!
