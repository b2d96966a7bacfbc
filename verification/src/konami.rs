//! The Konami code (↑ ↑ ↓ ↓ ← → ← → B A), watched for on keyboard and
//! gamepad input.

use crate::sequence::{
    detector_wf, ends_with, feed_completes, feed_results, fed, fed_all, has_no_border, last_n,
    lemma_fires_iff_last_inputs_spell_sequence, lemma_full_sequence_completes, none_completed, progress_of, DetectorInput,
    SequenceDetector,
};
use vstd::prelude::*;

verus! {

/// One navigation or button input, as far as the code is concerned.
#[derive(Debug, Clone, Copy, PartialEq, Eq, Structural)]
pub enum KonamiInput {
    Up,
    Down,
    Left,
    Right,
    B,
    A,
    Other,
}

impl DetectorInput for KonamiInput {
    fn same(&self, other: &Self) -> (r: bool) {
        *self == *other
    }
}

/// ↑ ↑ ↓ ↓ ← → ← → B A.
pub open spec fn konami_code() -> Seq<KonamiInput> {
    seq![
        KonamiInput::Up,
        KonamiInput::Up,
        KonamiInput::Down,
        KonamiInput::Down,
        KonamiInput::Left,
        KonamiInput::Right,
        KonamiInput::Left,
        KonamiInput::Right,
        KonamiInput::B,
        KonamiInput::A,
    ]
}

/// The code, as a vector.
pub fn konami_sequence() -> (r: Vec<KonamiInput>)
    ensures
        r@ == konami_code(),
{
    let r = vec![
        KonamiInput::Up,
        KonamiInput::Up,
        KonamiInput::Down,
        KonamiInput::Down,
        KonamiInput::Left,
        KonamiInput::Right,
        KonamiInput::Left,
        KonamiInput::Right,
        KonamiInput::B,
        KonamiInput::A,
    ];
    proof {
        assert(r@ =~= konami_code());
    }
    r
}

/// The Konami code has no border: no proper prefix of it is also a suffix.
pub proof fn lemma_konami_has_no_border()
    ensures
        has_no_border(konami_code()),
{
    let s = konami_code();
    assert forall|k: int| 0 < k < s.len() implies #[trigger] s.take(k) != s.subrange(s.len() - k, s.len() as int) by {
        assert(s.take(k)[k - 1] == s[k - 1]);
        assert(s.subrange(s.len() - k, s.len() as int)[k - 1] == s[9]);
    }
}

/// Watches inputs for the Konami code.
pub struct KonamiDetector {
    detector: SequenceDetector<KonamiInput>,
}

impl KonamiDetector {
    #[verifier::type_invariant]
    spec fn konami_inv(self) -> bool {
        self.detector.sequence() == konami_code()
    }

    /// The inputs kept since the last completion.
    pub closed spec fn history(self) -> Seq<KonamiInput> {
        self.detector.history()
    }

    /// How many inputs of the code have been typed.
    pub fn progress(&self) -> (r: usize)
        ensures
            r == progress_of(self.history(), konami_code()),
            r < 10,
            detector_wf(self.history(), konami_code()),
    {
        proof {
            use_type_invariant(self);
        }
        self.detector.progress()
    }

    /// `input` is the next one of the code.
    pub fn expects(&self, input: KonamiInput) -> (r: bool)
        ensures
            r == (konami_code()[progress_of(self.history(), konami_code())] == input),
    {
        proof {
            use_type_invariant(self);
        }
        self.detector.expects(input)
    }

    /// Records `input`; `true` when it completes the code, after which the
    /// detector starts over.
    pub fn feed(&mut self, input: KonamiInput) -> (r: bool)
        ensures
            r == feed_completes(old(self).history(), konami_code(), input),
            final(self).history() == fed(old(self).history(), konami_code(), input),
            r ==> progress_of(final(self).history(), konami_code()) == 0,
            detector_wf(final(self).history(), konami_code()),
    {
        proof {
            use_type_invariant(&*self);
        }
        let mut d = SequenceDetector::new(konami_sequence());
        std::mem::swap(&mut d, &mut self.detector);
        let r = d.feed(input);
        self.detector = d;
        r
    }
}

impl Default for KonamiDetector {
    fn default() -> (d: Self)
        ensures
            d.history() == Seq::<KonamiInput>::empty(),
            detector_wf(d.history(), konami_code()),
    {
        KonamiDetector { detector: SequenceDetector::new(konami_sequence()) }
    }
}

/// Typing the whole code completes it on its last input and never before,
/// whatever was typed earlier (any history a detector can hold).
pub proof fn lemma_konami_code_always_completes(history: Seq<KonamiInput>)
    requires
        detector_wf(history, konami_code()),
    ensures
        feed_results(history, konami_code(), konami_code()) == Seq::new(10, |i: int| i == 9),
{
    lemma_konami_has_no_border();
    lemma_full_sequence_completes(history, konami_code());
}

/// A fresh detector fires exactly when the ten inputs typed last, since it
/// last fired, are the code: extra inputs before the code do not stop it.
pub proof fn lemma_konami_fires_iff_last_ten_are_code(inputs: Seq<KonamiInput>, x: KonamiInput)
    requires
        none_completed(konami_code(), inputs),
    ensures
        feed_completes(fed_all(Seq::empty(), konami_code(), inputs), konami_code(), x) <==> ends_with(
            inputs.push(x),
            konami_code(),
        ),
        !feed_completes(fed_all(Seq::empty(), konami_code(), inputs), konami_code(), x) ==> fed(
            fed_all(Seq::empty(), konami_code(), inputs),
            konami_code(),
            x,
        ) == last_n(inputs.push(x), 10),
{
    lemma_fires_iff_last_inputs_spell_sequence(konami_code(), inputs, x);
}

} // verus!
