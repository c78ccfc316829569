use vstd::prelude::*;
use vstd::string::*;
use vstd::utf8::*;

verus! {

/// A score to enter in the high-score table, with the player's name.
pub struct NewHighScore(pub String, pub u32);

/// The high-score table: five entries, best first.
#[derive(Clone, PartialEq, Debug)]
pub struct Savegame {
    pub high_scores: [SavableHighScore; 5],
}

/// One entry of the high-score table: a name of five bytes, padded with
/// spaces, and a score.
#[derive(Clone, PartialEq, Debug)]
pub struct SavableHighScore {
    pub name: [u8; 5],
    pub score: u32,
}

/// The five name bytes stored for a name whose UTF-8 bytes are `bytes`: its
/// first five bytes, padded with spaces.
pub open spec fn name_bytes(bytes: Seq<u8>) -> Seq<u8> {
    Seq::new(5, |i: int| if i < bytes.len() { bytes[i] } else { 32u8 })
}

/// An entry as a pair of its name bytes and its score.
pub open spec fn entry_view(e: SavableHighScore) -> (Seq<u8>, u32) {
    (e.name@, e.score)
}

/// The table as a sequence of pairs of name bytes and score.
pub open spec fn table_view(t: [SavableHighScore; 5]) -> Seq<(Seq<u8>, u32)> {
    t@.map_values(|e: SavableHighScore| entry_view(e))
}

/// Entry `i` is the first whose score is lower than `score`.
pub open spec fn first_lower(t: Seq<(Seq<u8>, u32)>, score: u32, i: int) -> bool {
    &&& 0 <= i < t.len()
    &&& t[i].1 < score
    &&& forall|j: int| 0 <= j < i ==> #[trigger] t[j].1 >= score
}

/// The table once `e` is entered: it goes before the first entry with a
/// lower score, the entries from there on move down one place and the last
/// one leaves; where no entry has a lower score the table stays as it is.
pub open spec fn with_score(t: Seq<(Seq<u8>, u32)>, e: (Seq<u8>, u32)) -> Seq<(Seq<u8>, u32)> {
    if exists|i: int| first_lower(t, e.1, i) {
        let i = choose|i: int| first_lower(t, e.1, i);
        t.take(i) + seq![e] + t.subrange(i, t.len() - 1)
    } else {
        t
    }
}

/// The scores of the table never increase from one entry to the next.
pub open spec fn best_first(t: Seq<(Seq<u8>, u32)>) -> bool {
    forall|i: int, j: int| 0 <= i < j < t.len() ==> #[trigger] t[i].1 >= #[trigger] t[j].1
}


/// Where some entry among the first `n` has a lower score, there is a first such entry.
proof fn lemma_first_lower_exists(t: Seq<(Seq<u8>, u32)>, score: u32, n: int)
    requires
        0 <= n <= t.len(),
        exists|j: int| 0 <= j < n && t[j].1 < score,
    ensures
        exists|i: int| first_lower(t, score, i),
    decreases n,
{
    if exists|j: int| 0 <= j < n - 1 && t[j].1 < score {
        lemma_first_lower_exists(t, score, n - 1);
    } else {
        assert(first_lower(t, score, n - 1));
    }
}

/// Entering a score keeps the table's length.
pub proof fn lemma_add_score_keeps_length(t: Seq<(Seq<u8>, u32)>, e: (Seq<u8>, u32))
    requires
        t.len() > 0,
    ensures
        with_score(t, e).len() == t.len(),
{
}

/// Entering a score in a table that lists the best first keeps it so.
pub proof fn lemma_add_score_keeps_best_first(t: Seq<(Seq<u8>, u32)>, e: (Seq<u8>, u32))
    requires
        best_first(t),
    ensures
        best_first(with_score(t, e)),
{
    if exists|i: int| first_lower(t, e.1, i) {
        let i = choose|i: int| first_lower(t, e.1, i);
        let u = with_score(t, e);
        assert forall|a: int, b: int| 0 <= a < b < u.len() implies #[trigger] u[a].1 >= #[trigger] u[b].1 by {
            if b < i {
                assert(u[a] == t[a] && u[b] == t[b]);
            } else if b == i {
                assert(u[a] == t[a]);
                assert(t[a].1 >= e.1);
            } else if a == i {
                assert(u[b] == t[b - 1]);
                assert(t[i].1 >= t[b - 1].1);
            } else if a < i {
                assert(u[a] == t[a] && u[b] == t[b - 1]);
                assert(t[a].1 >= e.1);
                assert(t[i].1 >= t[b - 1].1);
            } else {
                assert(u[a] == t[a - 1] && u[b] == t[b - 1]);
            }
        }
    }
}

/// In a table that lists the best first, a score enters exactly when it is
/// higher than the last entry's.
pub proof fn lemma_enters_iff_beats_last(t: Seq<(Seq<u8>, u32)>, e: (Seq<u8>, u32))
    requires
        best_first(t),
        t.len() > 0,
    ensures
        (exists|i: int| first_lower(t, e.1, i)) <==> t[t.len() - 1].1 < e.1,
        !(t[t.len() - 1].1 < e.1) ==> with_score(t, e) == t,
{
    if exists|i: int| first_lower(t, e.1, i) {
        let i = choose|i: int| first_lower(t, e.1, i);
        if i < t.len() - 1 {
            assert(t[i].1 >= t[t.len() - 1].1);
        }
    }
    if t[t.len() - 1].1 < e.1 {
        lemma_first_lower_exists(t, e.1, t.len() as int);
    }
}

/// The first five bytes of `name_str`, padded with spaces.
fn str_to_u8_5(name_str: &str) -> (name: [u8; 5])
    ensures
        name@ == name_bytes(encode_utf8(name_str@)),
{
    let mut name: [u8; 5] = [32u8, 32u8, 32u8, 32u8, 32u8];
    let bytes = name_str.as_bytes();
    for i in 0..bytes.len()
        invariant
            bytes@ == encode_utf8(name_str@),
            bytes@.len() == bytes.len(),
            name@.len() == 5,
            forall|k: int|
                0 <= k < 5 ==> #[trigger] name@[k] == if k < i {
                    bytes@[k]
                } else {
                    32u8
                },
    {
        if i < 5 {
            name[i] = bytes[i];
        }
    }
    assert(name@ =~= name_bytes(encode_utf8(name_str@)));
    name
}

/// `String::from_utf8`: the bytes as a string, or `None` where they are not
/// UTF-8. The contract claims what std documents, in vstd's terms: the bytes
/// are accepted exactly when they are valid UTF-8, and the string holds the
/// characters they encode.
#[verifier::external_body]
fn string_from_utf8(bytes: Vec<u8>) -> (s: Option<String>)
    ensures
        s is Some <==> valid_utf8(bytes@),
        s matches Some(s) ==> s@ == decode_utf8(bytes@),
{
    String::from_utf8(bytes).ok()
}

/// The text of Rust's `Debug` formatting of the pair of the string `name`
/// and the number `score`.
pub uninterp spec fn debug_pair_text(name: Seq<char>, score: u32) -> Seq<char>;

/// `format!("{:?}", (name, score))`: std's `Debug` text of a pair of a string
/// and a number. The contract names that text as a function of the two
/// values; its exact form (quotes and escapes around the string, the digits of
/// the number) is std's and is not written out.
#[verifier::external_body]
fn debug_pair(name: &String, score: u32) -> (text: String)
    ensures
        text@ == debug_pair_text(name@, score),
{
    format!("{:?}", (name, score))
}

impl SavableHighScore {
    /// An entry for the name `name_str` (its first five bytes, padded with
    /// spaces) and `score`.
    pub fn new(name_str: &str, score: u32) -> (e: Self)
        ensures
            e.name@ == name_bytes(encode_utf8(name_str@)),
            e.score == score,
    {
        let name = str_to_u8_5(name_str);
        SavableHighScore { name, score }
    }

    /// The entry's name as text, and its score. The stored bytes must be
    /// UTF-8, which they are unless a name was cut inside a character.
    pub fn view(&self) -> (v: (String, u32))
        requires
            valid_utf8(self.name@),
        ensures
            v.0@ == decode_utf8(self.name@),
            v.1 == self.score,
    {
        let bytes = vstd::slice::slice_to_vec(self.name.as_slice());
        (string_from_utf8(bytes).unwrap(), self.score)
    }

    /// The entry as debugging text: the `Debug` text of its name as text and
    /// its score. The stored bytes must be UTF-8, as for `view`.
    pub fn debug_text(&self) -> (text: String)
        requires
            valid_utf8(self.name@),
        ensures
            text@ == debug_pair_text(decode_utf8(self.name@), self.score),
    {
        let (name, score) = self.view();
        debug_pair(&name, score)
    }
}

impl Savegame {
    /// The table of a fresh installation.
    pub fn new() -> (s: Self)
        ensures
            table_view(s.high_scores) == seq![
                (name_bytes(encode_utf8("BETTY"@)), 100_000u32),
                (name_bytes(encode_utf8("TOMMY"@)), 50_000u32),
                (name_bytes(encode_utf8("CILLA"@)), 20_000u32),
                (name_bytes(encode_utf8("LANA"@)), 10_000u32),
                (name_bytes(encode_utf8("MAX"@)), 1_000u32),
            ],
    {
        let s = Savegame {
            high_scores: [
                SavableHighScore::new("BETTY", 100_000),
                SavableHighScore::new("TOMMY", 50_000),
                SavableHighScore::new("CILLA", 20_000),
                SavableHighScore::new("LANA", 10_000),
                SavableHighScore::new("MAX", 1_000),
            ],
        };
        assert(table_view(s.high_scores) =~= seq![
            (name_bytes(encode_utf8("BETTY"@)), 100_000u32),
            (name_bytes(encode_utf8("TOMMY"@)), 50_000u32),
            (name_bytes(encode_utf8("CILLA"@)), 20_000u32),
            (name_bytes(encode_utf8("LANA"@)), 10_000u32),
            (name_bytes(encode_utf8("MAX"@)), 1_000u32),
        ]);
        s
    }

    /// Enters a new score: before the first entry with a lower score, the
    /// lower entries moving down and the last one leaving the table. A score
    /// that beats no entry leaves the table as it is.
    #[verifier::spinoff_prover]
    pub fn add_score(&mut self, new_score: &NewHighScore)
        ensures
            table_view(final(self).high_scores) == with_score(
                table_view(old(self).high_scores),
                (name_bytes(encode_utf8(new_score.0@)), new_score.1),
            ),
    {
        let score = new_score.1;
        let ghost t = table_view(self.high_scores);
        for i in 0..5
            invariant
                score == new_score.1,
                t == table_view(old(self).high_scores),
                t == table_view(self.high_scores),
                forall|j: int| 0 <= j < i ==> #[trigger] t[j].1 >= score,
        {
            if self.high_scores[i].score < score {
                let name = str_to_u8_5(new_score.0.as_str());
                let entry = SavableHighScore { name, score };
                proof {
                    assert(first_lower(t, score, i as int));
                    lemma_with_score_at(t, entry_view(entry), i as int);
                }
                shift_down(&mut self.high_scores, i);
                let ghost before = table_view(self.high_scores);
                self.high_scores[i] = entry;
                assert(table_view(self.high_scores) =~= before.update(i as int, entry_view(entry)));
                assert(table_view(self.high_scores) =~= t.take(i as int) + seq![entry_view(entry)]
                    + t.subrange(i as int, 4));
                return;
            }
        }
        assert(!exists|i: int| first_lower(t, score, i));
    }
}

/// Where entry `i` is the first with a lower score, entering `e` puts it at `i`.
proof fn lemma_with_score_at(t: Seq<(Seq<u8>, u32)>, e: (Seq<u8>, u32), i: int)
    requires
        first_lower(t, e.1, i),
        t.len() == 5,
    ensures
        with_score(t, e) == t.take(i) + seq![e] + t.subrange(i, 4),
{
    assert forall|i2: int| first_lower(t, e.1, i2) implies i2 == i by {
        if i2 < i {
            assert(t[i2].1 >= e.1);
        } else if i2 > i {
            assert(t[i].1 >= e.1);
        }
    }
}

/// Moves the entries from `i` on down one place; the last entry leaves and
/// entry `i` stays where it was as well.
fn shift_down(table: &mut [SavableHighScore; 5], i: usize)
    requires
        i < 5,
    ensures
        table_view(*final(table)) == table_view(*old(table)).take(i + 1) + table_view(
            *old(table),
        ).subrange(i as int, 4),
{
    let ghost t = table_view(*table);
    let mut k: usize = 4;
    while k > i
        invariant
            i <= k <= 4,
            t.len() == 5,
            forall|j: int| 0 <= j <= k ==> #[trigger] table_view(*table)[j] == t[j],
            forall|j: int| k < j < 5 ==> #[trigger] table_view(*table)[j] == t[j - 1],
        decreases k,
    {
        let moved = SavableHighScore { name: table[k - 1].name, score: table[k - 1].score };
        assert(table_view(*table)[k - 1] == entry_view(table@[k - 1]));
        assert(entry_view(moved) == t[k - 1]);
        let ghost before = table_view(*table);
        table[k] = moved;
        assert(table_view(*table) =~= before.update(k as int, entry_view(moved)));
        k = k - 1;
    }
    assert(table_view(*table) =~= t.take(i + 1) + t.subrange(i as int, 4));
}

} // verus!
