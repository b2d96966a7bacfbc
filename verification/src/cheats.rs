//! Hidden cheat codes: the input sequences that trigger them, and the small
//! random generator that picks what a triggered cheat shows.

use crate::sequence::{
    detector_wf, feed_completes, feed_results, fed, has_no_border, lemma_full_sequence_completes, progress_of, DetectorInput,
    SequenceDetector,
};
use crate::text::{chars_of, same_text, spec_to_lowercase, string_of, to_lowercase, trim_ws, trimmed};
use vstd::prelude::*;

verus! {

/// One input as the cheat codes see it.
#[derive(Debug, Clone, Copy, PartialEq, Eq, Structural)]
pub enum CheatInput {
    Up,
    Down,
    Left,
    Right,
    B,
    A,
    Y,
    Other,
}

impl DetectorInput for CheatInput {
    fn same(&self, other: &Self) -> (r: bool) {
        *self == *other
    }
}

/// ↑ ↑ ↓ ↓ ← → ← → B A.
pub open spec fn konami_cheat() -> Seq<CheatInput> {
    seq![
        CheatInput::Up,
        CheatInput::Up,
        CheatInput::Down,
        CheatInput::Down,
        CheatInput::Left,
        CheatInput::Right,
        CheatInput::Left,
        CheatInput::Right,
        CheatInput::B,
        CheatInput::A,
    ]
}

/// → ← ↓ ↑ → ← ↓ ↑, then Y five times and A nine times.
pub open spec fn final_bout_cheat() -> Seq<CheatInput> {
    seq![
        CheatInput::Right,
        CheatInput::Left,
        CheatInput::Down,
        CheatInput::Up,
        CheatInput::Right,
        CheatInput::Left,
        CheatInput::Down,
        CheatInput::Up,
        CheatInput::Y,
        CheatInput::Y,
        CheatInput::Y,
        CheatInput::Y,
        CheatInput::Y,
        CheatInput::A,
        CheatInput::A,
        CheatInput::A,
        CheatInput::A,
        CheatInput::A,
        CheatInput::A,
        CheatInput::A,
        CheatInput::A,
        CheatInput::A,
    ]
}

/// The Konami code.
pub fn konami() -> (r: Vec<CheatInput>)
    ensures
        r@ == konami_cheat(),
{
    let r = vec![
        CheatInput::Up,
        CheatInput::Up,
        CheatInput::Down,
        CheatInput::Down,
        CheatInput::Left,
        CheatInput::Right,
        CheatInput::Left,
        CheatInput::Right,
        CheatInput::B,
        CheatInput::A,
    ];
    proof {
        assert(r@ =~= konami_cheat());
    }
    r
}

/// The "final bout" code.
pub fn final_bout() -> (r: Vec<CheatInput>)
    ensures
        r@ == final_bout_cheat(),
{
    let mut r = vec![
        CheatInput::Right,
        CheatInput::Left,
        CheatInput::Down,
        CheatInput::Up,
        CheatInput::Right,
        CheatInput::Left,
        CheatInput::Down,
        CheatInput::Up,
    ];
    let mut i: usize = 0;
    while i < 5
        invariant
            i <= 5,
            r@.len() == 8 + i,
            forall|j: int| 0 <= j < 8 ==> #[trigger] r@[j] == final_bout_cheat()[j],
            forall|j: int| 8 <= j < 8 + i ==> #[trigger] r@[j] == CheatInput::Y,
        decreases 5 - i,
    {
        r.push(CheatInput::Y);
        i = i + 1;
    }
    let mut i: usize = 0;
    while i < 9
        invariant
            i <= 9,
            r@.len() == 13 + i,
            forall|j: int| 0 <= j < 8 ==> #[trigger] r@[j] == final_bout_cheat()[j],
            forall|j: int| 8 <= j < 13 ==> #[trigger] r@[j] == CheatInput::Y,
            forall|j: int| 13 <= j < 13 + i ==> #[trigger] r@[j] == CheatInput::A,
        decreases 9 - i,
    {
        r.push(CheatInput::A);
        i = i + 1;
    }
    proof {
        assert(r@ =~= final_bout_cheat());
    }
    r
}

/// Neither code has a border, so typing either one always triggers it on its
/// last input and never before.
pub proof fn lemma_codes_have_no_border()
    ensures
        has_no_border(konami_cheat()),
        has_no_border(final_bout_cheat()),
{
    let s = konami_cheat();
    assert forall|k: int| 0 < k < s.len() implies #[trigger] s.take(k) != s.subrange(s.len() - k, s.len() as int) by {
        assert(s.take(k)[k - 1] == s[k - 1]);
        assert(s.subrange(s.len() - k, s.len() as int)[k - 1] == s[9]);
    }
    let f = final_bout_cheat();
    assert forall|k: int| 0 < k < f.len() implies #[trigger] f.take(k) != f.subrange(f.len() - k, f.len() as int) by {
        let t = f.take(k);
        let u = f.subrange(f.len() - k, f.len() as int);
        assert(u[k - 1] == f[21]);
        assert(t[k - 1] == f[k - 1]);
        if k >= 14 {
            assert(t[0] == f[0]);
            assert(u[0] == f[22 - k]);
            if k == 18 {
                assert(t[4] == f[4]);
                assert(u[4] == f[8]);
            }
        }
    }
}

/// Typing either code in full triggers it exactly on its last input, whatever
/// was typed before.
pub proof fn lemma_cheats_always_complete(history: Seq<CheatInput>, other: Seq<CheatInput>)
    requires
        detector_wf(history, konami_cheat()),
        detector_wf(other, final_bout_cheat()),
    ensures
        feed_results(history, konami_cheat(), konami_cheat()) == Seq::new(10, |i: int| i == 9),
        feed_results(other, final_bout_cheat(), final_bout_cheat()) == Seq::new(22, |i: int| i == 21),
{
    lemma_codes_have_no_border();
    lemma_full_sequence_completes(history, konami_cheat());
    lemma_full_sequence_completes(other, final_bout_cheat());
}

/// The cheat detectors of the launcher, and whether a cheat's animation is
/// running (inputs are then swallowed).
pub struct Cheats {
    pub konami: SequenceDetector<CheatInput>,
    pub final_bout: SequenceDetector<CheatInput>,
    pub running: bool,
}

/// What an input did to the cheats.
pub struct CheatOutcome {
    /// The input is taken by the cheats and goes no further.
    pub consumed: bool,
    /// It completed the Konami code.
    pub konami_done: bool,
    /// It completed the "final bout" code.
    pub final_bout_done: bool,
}

/// A face button (A, B or Y).
pub open spec fn is_button(i: CheatInput) -> bool {
    i == CheatInput::A || i == CheatInput::B || i == CheatInput::Y
}

/// The detector expects `i` next.
pub open spec fn expected_next(d: SequenceDetector<CheatInput>, i: CheatInput) -> bool {
    d.sequence()[progress_of(d.history(), d.sequence())] == i
}

impl Cheats {
    /// Both detectors with nothing typed, no animation running.
    pub fn new() -> (r: Cheats)
        ensures
            r.konami.sequence() == konami_cheat(),
            r.final_bout.sequence() == final_bout_cheat(),
            r.konami.history().len() == 0,
            r.final_bout.history().len() == 0,
            !r.running,
    {
        Cheats {
            konami: SequenceDetector::new(konami()),
            final_bout: SequenceDetector::new(final_bout()),
            running: false,
        }
    }

    /// Offers an input (none for a move that is no input) to the cheats. While
    /// an animation runs every input is swallowed; otherwise the input is fed
    /// to both detectors, and is taken when it completes a code, or when it
    /// is a face button that one of the codes expected (so that typing a code
    /// does not also press buttons).
    pub fn intercept(&mut self, input: Option<CheatInput>) -> (r: CheatOutcome)
        ensures
            final(self).running == old(self).running,
            final(self).konami.sequence() == old(self).konami.sequence(),
            final(self).final_bout.sequence() == old(self).final_bout.sequence(),
            match input {
                Some(i) if !old(self).running => {
                    &&& r.konami_done == feed_completes(old(self).konami.history(), old(self).konami.sequence(), i)
                    &&& r.final_bout_done == feed_completes(
                        old(self).final_bout.history(),
                        old(self).final_bout.sequence(),
                        i,
                    )
                    &&& final(self).konami.history() == fed(old(self).konami.history(), old(self).konami.sequence(), i)
                    &&& final(self).final_bout.history() == fed(
                        old(self).final_bout.history(),
                        old(self).final_bout.sequence(),
                        i,
                    )
                    &&& r.consumed == (r.konami_done || r.final_bout_done || ((expected_next(old(self).konami, i)
                        || expected_next(old(self).final_bout, i)) && is_button(i)))
                },
                _ => {
                    &&& r.consumed == old(self).running
                    &&& !r.konami_done && !r.final_bout_done
                    &&& final(self).konami.history() == old(self).konami.history()
                    &&& final(self).final_bout.history() == old(self).final_bout.history()
                },
            },
    {
        if self.running {
            return CheatOutcome { consumed: true, konami_done: false, final_bout_done: false };
        }
        let i = match input {
            Some(i) => i,
            None => return CheatOutcome { consumed: false, konami_done: false, final_bout_done: false },
        };
        let button = i == CheatInput::A || i == CheatInput::B || i == CheatInput::Y;
        let expected = self.konami.expects(i) || self.final_bout.expects(i);
        let konami_done = self.konami.feed(i);
        let final_bout_done = self.final_bout.feed(i);
        CheatOutcome { consumed: konami_done || final_bout_done || (expected && button), konami_done, final_bout_done }
    }
}

/// The cheats typed in the search field.
#[derive(Debug, Clone, Copy, PartialEq, Eq, Structural)]
pub enum SearchCheat {
    BarrelRoll,
    Askew,
    BigHeadMode,
    PowerOverwhelming,
    Iddqd,
}

/// The cheat a search query names, once trimmed and lowercased.
pub open spec fn search_cheat_of(query: Seq<char>) -> Option<SearchCheat> {
    let q = spec_to_lowercase(trimmed(query));
    if q == "do a barrel roll"@ {
        Some(SearchCheat::BarrelRoll)
    } else if q == "askew"@ {
        Some(SearchCheat::Askew)
    } else if q == "big head mode"@ {
        Some(SearchCheat::BigHeadMode)
    } else if q == "power overwhelming"@ {
        Some(SearchCheat::PowerOverwhelming)
    } else if q == "iddqd"@ {
        Some(SearchCheat::Iddqd)
    } else {
        None
    }
}

/// The cheat a search query names, if any (the search field is then cleared).
pub fn search_cheat(query: &str) -> (r: Option<SearchCheat>)
    ensures
        r == search_cheat_of(query@),
{
    let c = chars_of(query);
    let t = trim_ws(c.as_slice());
    let ts = string_of(t.as_slice());
    let l = to_lowercase(ts.as_str());
    let q = l.as_str();
    if same_text(q, "do a barrel roll") {
        Some(SearchCheat::BarrelRoll)
    } else if same_text(q, "askew") {
        Some(SearchCheat::Askew)
    } else if same_text(q, "big head mode") {
        Some(SearchCheat::BigHeadMode)
    } else if same_text(q, "power overwhelming") {
        Some(SearchCheat::PowerOverwhelming)
    } else if same_text(q, "iddqd") {
        Some(SearchCheat::Iddqd)
    } else {
        None
    }
}

/// A xorshift generator, used to pick random themes and games.
pub struct Rng {
    state: u64,
}

/// One xorshift64 step (shifts 13, 7, 17).
pub open spec fn xorshift(x: u64) -> u64 {
    let a = x ^ ((x << 13u64) as u64);
    let b = a ^ (a >> 7u64);
    b ^ ((b << 17u64) as u64)
}

impl Rng {
    /// The generator's state.
    pub closed spec fn state(self) -> u64 {
        self.state
    }

    /// A generator seeded with `seed`, made odd so that it is never zero.
    pub fn from_seed(seed: u64) -> (r: Rng)
        ensures
            r.state() == seed | 1,
    {
        Rng { state: seed | 1 }
    }

    /// A generator seeded from the clock, made odd so that it is never zero
    /// (a zero state would draw zero forever).
    pub fn new() -> (r: Rng)
        ensures
            r.state() & 1 == 1,
            r.state() != 0,
    {
        let seed = clock_nanos();
        let r = Rng::from_seed(seed);
        proof {
            assert((seed | 1u64) & 1u64 == 1u64) by (bit_vector);
            assert((seed | 1u64) != 0u64) by (bit_vector);
        }
        r
    }

    /// A random index below `len`, never `previous` when there are at least two
    /// to choose from: the first xorshift draw that differs from `previous`.
    pub fn pick(&mut self, len: usize, previous: Option<usize>) -> (r: usize)
        requires
            len > 0,
        ensures
            r < len,
            len >= 2 ==> previous != Some(r),
            ({
                let first = xorshift(old(self).state());
                let i = (first % (len as u64)) as usize;
                (len < 2 || previous != Some(i)) ==> r == i && final(self).state() == first
            }),
    {
        let mut tries: u32 = 0;
        let ghost start = self.state;
        loop
            invariant
                len > 0,
                start == old(self).state,
                tries <= 63,
                tries == 0 ==> self.state == start,
                tries > 0 ==> (len >= 2 && previous == Some(((xorshift(start) % (len as u64)) as usize))),
            decreases 64 - tries,
        {
            let x = self.state;
            let a: u64 = x ^ (x << 13u64);
            let b: u64 = a ^ (a >> 7u64);
            let c: u64 = b ^ (b << 17u64);
            proof {
                assert(c == xorshift(x)) by (bit_vector)
                    requires
                        a == x ^ (x << 13u64),
                        b == a ^ (a >> 7u64),
                        c == b ^ (b << 17u64),
                ;
            }
            self.state = c;
            let index: usize = (c % (len as u64)) as usize;
            if len < 2 || !matches!(previous, Some(p) if p == index) {
                return index;
            }
            if tries >= 63 {
                let p = index;
                return if p + 1 < len { p + 1 } else { 0 };
            }
            tries = tries + 1;
        }
    }
}

/// Nanoseconds of the system clock since the Unix epoch, truncated to 64 bits
/// (0 if the clock reads before the epoch). Nothing is known of the value.
#[verifier::external_body]
fn clock_nanos() -> u64 {
    std::time::SystemTime::now().duration_since(std::time::SystemTime::UNIX_EPOCH).map_or(0, |d| d.as_nanos() as u64)
}

} // verus!
