//! Detection of a fixed input sequence (a cheat code) typed one input at a
//! time, over any alphabet: the model that `konami::KonamiDetector` and
//! `cheats::SequenceDetector` implement, and the laws it obeys.

use vstd::prelude::*;

verus! {

/// The last `k` inputs of `history` are the first `k` inputs of `seq`.
pub open spec fn suffix_matches<A>(history: Seq<A>, seq: Seq<A>, k: int) -> bool {
    0 <= k <= history.len() && k <= seq.len() && history.subrange(history.len() - k, history.len() as int)
        == seq.take(k)
}

/// The longest `j <= k` with `suffix_matches(history, seq, j)`.
pub open spec fn longest_match_upto<A>(history: Seq<A>, seq: Seq<A>, k: int) -> int
    decreases k,
{
    if k <= 0 {
        0
    } else if suffix_matches(history, seq, k) {
        k
    } else {
        longest_match_upto(history, seq, k - 1)
    }
}

/// How much of `seq` the end of `history` has already typed: the longest
/// prefix of `seq` that `history` ends with.
pub open spec fn progress_of<A>(history: Seq<A>, seq: Seq<A>) -> int {
    longest_match_upto(history, seq, history.len() as int)
}

/// A history that a detector can be in: never longer than the sequence, never
/// holding the complete sequence (a completion clears it).
pub open spec fn detector_wf<A>(history: Seq<A>, seq: Seq<A>) -> bool {
    &&& seq.len() > 0
    &&& history.len() <= seq.len()
    &&& progress_of(history, seq) < seq.len()
}

/// The history once `input` is appended, the oldest input dropped when the
/// history is already as long as the sequence.
pub open spec fn appended<A>(history: Seq<A>, seq: Seq<A>, input: A) -> Seq<A> {
    if history.len() == seq.len() {
        history.drop_first().push(input)
    } else {
        history.push(input)
    }
}

/// Whether feeding `input` completes the sequence.
pub open spec fn feed_completes<A>(history: Seq<A>, seq: Seq<A>, input: A) -> bool {
    progress_of(appended(history, seq, input), seq) == seq.len()
}

/// The history after feeding `input`: cleared on completion.
pub open spec fn fed<A>(history: Seq<A>, seq: Seq<A>, input: A) -> Seq<A> {
    if feed_completes(history, seq, input) {
        Seq::empty()
    } else {
        appended(history, seq, input)
    }
}

/// The results of feeding each input of `inputs` in turn, from `history`.
pub open spec fn feed_results<A>(history: Seq<A>, seq: Seq<A>, inputs: Seq<A>) -> Seq<bool>
    decreases inputs.len(),
{
    if inputs.len() == 0 {
        Seq::empty()
    } else {
        seq![feed_completes(history, seq, inputs[0])] + feed_results(
            fed(history, seq, inputs[0]),
            seq,
            inputs.drop_first(),
        )
    }
}

/// No proper prefix of `seq` is also a suffix of it: a completion can then
/// only end where a full typing of `seq` ends.
pub open spec fn has_no_border<A>(seq: Seq<A>) -> bool {
    forall|k: int| 0 < k < seq.len() ==> #[trigger] seq.take(k) != seq.subrange(seq.len() - k, seq.len() as int)
}

pub proof fn lemma_longest_bounds<A>(history: Seq<A>, seq: Seq<A>, k: int)
    requires
        k <= history.len(),
    ensures
        0 <= longest_match_upto(history, seq, k),
        longest_match_upto(history, seq, k) <= if k < 0 { 0 } else { k },
        longest_match_upto(history, seq, k) > 0 ==> suffix_matches(
            history,
            seq,
            longest_match_upto(history, seq, k),
        ),
        forall|j: int| longest_match_upto(history, seq, k) < j <= k ==> !#[trigger] suffix_matches(history, seq, j),
    decreases k,
{
    if k > 0 && !suffix_matches(history, seq, k) {
        lemma_longest_bounds(history, seq, k - 1);
    }
}

/// `progress_of` is the longest match: it matches, and nothing longer does.
pub proof fn lemma_progress<A>(history: Seq<A>, seq: Seq<A>)
    ensures
        0 <= progress_of(history, seq) <= history.len(),
        suffix_matches(history, seq, progress_of(history, seq)),
        forall|j: int| progress_of(history, seq) < j <= history.len() ==> !#[trigger] suffix_matches(history, seq, j),
{
    lemma_longest_bounds(history, seq, history.len() as int);
    if progress_of(history, seq) == 0 {
        assert(history.subrange(history.len() as int, history.len() as int) =~= seq.take(0));
    }
}

/// A match of length `j` shows progress of at least `j`.
pub proof fn lemma_progress_at_least<A>(history: Seq<A>, seq: Seq<A>, j: int)
    requires
        suffix_matches(history, seq, j),
    ensures
        j <= progress_of(history, seq),
{
    lemma_progress(history, seq);
}

/// Dropping inputs older than the current match changes nothing.
proof fn lemma_drop_first_keeps_progress<A>(history: Seq<A>, seq: Seq<A>)
    requires
        history.len() > 0,
        progress_of(history, seq) < history.len(),
    ensures
        progress_of(history.drop_first(), seq) == progress_of(history, seq),
{
    let h1 = history.drop_first();
    lemma_progress(history, seq);
    lemma_progress(h1, seq);
    let p = progress_of(history, seq);
    let q = progress_of(h1, seq);
    assert(h1.subrange(h1.len() - p, h1.len() as int) =~= history.subrange(history.len() - p, history.len() as int));
    lemma_progress_at_least(h1, seq, p);
    assert(history.subrange(history.len() - q, history.len() as int) =~= h1.subrange(h1.len() - q, h1.len() as int));
    lemma_progress_at_least(history, seq, q);
}

/// Matching `k + 1` after an append means matching `k` before it, and the
/// appended input is the `(k + 1)`-th of the sequence.
proof fn lemma_append_match<A>(h: Seq<A>, seq: Seq<A>, x: A, k: int)
    requires
        0 <= k,
        suffix_matches(h.push(x), seq, k + 1),
    ensures
        suffix_matches(h, seq, k),
        seq[k] == x,
{
    let h2 = h.push(x);
    assert(h2.subrange(h2.len() - (k + 1), h2.len() as int)[k] == seq.take(k + 1)[k]);
    assert(h.subrange(h.len() - k, h.len() as int) =~= h2.subrange(h2.len() - (k + 1), h2.len() as int).take(k));
    assert(seq.take(k) =~= seq.take(k + 1).take(k));
}

/// Appending `seq[k]` to a history that ends with `seq.take(k)`.
proof fn lemma_append_extends<A>(h: Seq<A>, seq: Seq<A>, k: int)
    requires
        suffix_matches(h, seq, k),
        k < seq.len(),
    ensures
        suffix_matches(h.push(seq[k]), seq, k + 1),
{
    let h2 = h.push(seq[k]);
    assert(h2.subrange(h2.len() - (k + 1), h2.len() as int) =~= seq.take(k + 1));
}

/// The progress after an append is at most one more than before, and is
/// exactly one more when the input is the one expected next.
pub proof fn lemma_append_step<A>(history: Seq<A>, seq: Seq<A>, x: A)
    requires
        detector_wf(history, seq),
    ensures
        progress_of(appended(history, seq, x), seq) <= progress_of(history, seq) + 1,
        seq[progress_of(history, seq)] == x ==> progress_of(appended(history, seq, x), seq) == progress_of(
            history,
            seq,
        ) + 1,
        appended(history, seq, x).len() <= seq.len(),
{
    let p = progress_of(history, seq);
    lemma_progress(history, seq);
    let h1 = if history.len() == seq.len() {
        history.drop_first()
    } else {
        history
    };
    if history.len() == seq.len() {
        lemma_drop_first_keeps_progress(history, seq);
    }
    assert(progress_of(h1, seq) == p);
    lemma_progress(h1, seq);
    let h2 = h1.push(x);
    assert(h2 == appended(history, seq, x));
    let q = progress_of(h2, seq);
    lemma_progress(h2, seq);
    if q > 0 {
        lemma_append_match(h1, seq, x, q - 1);
        lemma_progress_at_least(h1, seq, q - 1);
    }
    if seq[p] == x {
        lemma_append_extends(h1, seq, p);
        lemma_progress_at_least(h2, seq, p + 1);
    }
}

/// Feeding keeps a detector in a state it can be in.
pub proof fn lemma_fed_wf<A>(history: Seq<A>, seq: Seq<A>, x: A)
    requires
        detector_wf(history, seq),
    ensures
        detector_wf(fed(history, seq, x), seq),
{
    lemma_append_step(history, seq, x);
    if feed_completes(history, seq, x) {
        assert(progress_of(Seq::<A>::empty(), seq) == 0);
    }
}

/// A completion empties the history: the progress starts again from zero.
pub proof fn lemma_completion_resets<A>(history: Seq<A>, seq: Seq<A>, x: A)
    requires
        detector_wf(history, seq),
        feed_completes(history, seq, x),
    ensures
        progress_of(fed(history, seq, x), seq) == 0,
{
}

/// Typing the whole sequence, from any state a detector can be in, completes
/// it on the last input and never before, when the sequence has no border.
pub proof fn lemma_full_sequence_completes<A>(history: Seq<A>, seq: Seq<A>)
    requires
        detector_wf(history, seq),
        has_no_border(seq),
    ensures
        feed_results(history, seq, seq) == Seq::new(seq.len(), |i: int| i == seq.len() - 1),
{
    assert(suffix_matches(history, seq, 0)) by {
        assert(history.subrange(history.len() as int, history.len() as int) =~= seq.take(0));
    }
    lemma_typing_rest(history, seq, 0);
    assert(seq.skip(0) =~= seq);
}

/// The last `n` inputs of `inputs` (all of them when there are fewer).
pub open spec fn last_n<A>(inputs: Seq<A>, n: nat) -> Seq<A> {
    if inputs.len() <= n {
        inputs
    } else {
        inputs.subrange(inputs.len() - n, inputs.len() as int)
    }
}

/// `inputs` ends with the whole of `seq`.
pub open spec fn ends_with<A>(inputs: Seq<A>, seq: Seq<A>) -> bool {
    inputs.len() >= seq.len() && inputs.subrange(inputs.len() - seq.len(), inputs.len() as int) == seq
}

/// The history after feeding each of `inputs` in turn, from `history`.
pub open spec fn fed_all<A>(history: Seq<A>, seq: Seq<A>, inputs: Seq<A>) -> Seq<A>
    decreases inputs.len(),
{
    if inputs.len() == 0 {
        history
    } else {
        fed(fed_all(history, seq, inputs.drop_last()), seq, inputs.last())
    }
}

/// No input of `inputs`, fed in turn to a fresh detector, completed `seq`.
pub open spec fn none_completed<A>(seq: Seq<A>, inputs: Seq<A>) -> bool {
    forall|i: int|
        0 <= i < inputs.len() ==> !#[trigger] feed_completes(
            fed_all(Seq::empty(), seq, inputs.take(i)),
            seq,
            inputs[i],
        )
}

/// A history no longer than the sequence completes it exactly when it holds
/// the whole sequence.
proof fn lemma_complete_iff_ends_with<A>(w: Seq<A>, seq: Seq<A>)
    requires
        w.len() <= seq.len(),
    ensures
        (progress_of(w, seq) == seq.len()) <==> ends_with(w, seq),
{
    lemma_progress(w, seq);
    if ends_with(w, seq) {
        assert(seq.take(seq.len() as int) =~= seq);
        lemma_progress_at_least(w, seq, seq.len() as int);
    }
    if progress_of(w, seq) == seq.len() {
        assert(seq.take(seq.len() as int) =~= seq);
    }
}

/// Appending to the last `n` inputs keeps the last `n` of the longer list.
proof fn lemma_appended_last_n<A>(inputs: Seq<A>, seq: Seq<A>, x: A)
    requires
        seq.len() > 0,
    ensures
        appended(last_n(inputs, seq.len()), seq, x) == last_n(inputs.push(x), seq.len()),
{
    let n = seq.len();
    let w = inputs.push(x);
    if inputs.len() >= n {
        let l = last_n(inputs, n);
        assert(l.len() == n);
        assert(l.drop_first().push(x) =~= w.subrange(w.len() - n, w.len() as int));
    } else {
        assert(last_n(w, n) =~= w);
    }
}

/// Fed in turn to a fresh detector, inputs none of which completed the
/// sequence leave it holding their last `n`, `n` being the sequence's length.
pub proof fn lemma_history_is_last_inputs<A>(seq: Seq<A>, inputs: Seq<A>)
    requires
        seq.len() > 0,
        none_completed(seq, inputs),
    ensures
        fed_all(Seq::empty(), seq, inputs) == last_n(inputs, seq.len()),
        detector_wf(fed_all(Seq::empty(), seq, inputs), seq),
    decreases inputs.len(),
{
    let e = Seq::<A>::empty();
    if inputs.len() == 0 {
        assert(progress_of(e, seq) == 0);
    } else {
        let p = inputs.drop_last();
        let y = inputs.last();
        assert forall|i: int| 0 <= i < p.len() implies !#[trigger] feed_completes(
            fed_all(e, seq, p.take(i)),
            seq,
            p[i],
        ) by {
            assert(p.take(i) =~= inputs.take(i));
            assert(!feed_completes(fed_all(e, seq, inputs.take(i)), seq, inputs[i]));
        }
        lemma_history_is_last_inputs(seq, p);
        assert(inputs.take(p.len() as int) =~= p);
        assert(!feed_completes(fed_all(e, seq, inputs.take(p.len() as int)), seq, inputs[p.len() as int]));
        lemma_fed_wf(fed_all(e, seq, p), seq, y);
        lemma_appended_last_n(p, seq, y);
        assert(p.push(y) =~= inputs);
    }
}

/// The detector looks at everything typed since it last fired: after inputs
/// none of which completed the sequence, the next input completes it exactly
/// when those inputs followed by it end with the whole sequence; when it does
/// not, the detector holds the last `n` of them, `n` being the sequence's
/// length.
pub proof fn lemma_fires_iff_last_inputs_spell_sequence<A>(seq: Seq<A>, inputs: Seq<A>, x: A)
    requires
        seq.len() > 0,
        none_completed(seq, inputs),
    ensures
        feed_completes(fed_all(Seq::empty(), seq, inputs), seq, x) <==> ends_with(inputs.push(x), seq),
        !feed_completes(fed_all(Seq::empty(), seq, inputs), seq, x) ==> fed(
            fed_all(Seq::empty(), seq, inputs),
            seq,
            x,
        ) == last_n(inputs.push(x), seq.len()),
{
    let n = seq.len();
    lemma_history_is_last_inputs(seq, inputs);
    lemma_appended_last_n(inputs, seq, x);
    let w = inputs.push(x);
    let l = last_n(w, n);
    lemma_complete_iff_ends_with(l, seq);
    if w.len() >= n {
        assert(l.subrange(l.len() - n, l.len() as int) =~= w.subrange(w.len() - n, w.len() as int));
    }
}

/// Induction behind `lemma_full_sequence_completes`: a history that ends
/// with `seq.take(j)`, fed the rest of `seq`.
proof fn lemma_typing_rest<A>(history: Seq<A>, seq: Seq<A>, j: int)
    requires
        detector_wf(history, seq),
        has_no_border(seq),
        0 <= j < seq.len(),
        suffix_matches(history, seq, j),
    ensures
        feed_results(history, seq, seq.skip(j)) == Seq::new((seq.len() - j) as nat, |i: int| i == seq.len() - j - 1),
    decreases seq.len() - j,
{
    let n = seq.len() as int;
    let x = seq[j];
    let h1 = if history.len() == seq.len() {
        history.drop_first()
    } else {
        history
    };
    lemma_progress(history, seq);
    assert(suffix_matches(h1, seq, j)) by {
        assert(h1.subrange(h1.len() - j, h1.len() as int) =~= history.subrange(history.len() - j, history.len() as int));
    }
    lemma_append_extends(h1, seq, j);
    let h2 = appended(history, seq, x);
    assert(h2 == h1.push(x));
    lemma_append_step(history, seq, x);
    lemma_progress(h2, seq);
    lemma_progress_at_least(h2, seq, j + 1);
    let rest = seq.skip(j);
    assert(rest[0] == x);
    assert(rest.drop_first() =~= seq.skip(j + 1));
    if j + 1 == n {
        assert(feed_completes(history, seq, x));
        assert(feed_results(history, seq, rest) =~= Seq::new((n - j) as nat, |i: int| i == n - j - 1)) by {
            assert(seq.skip(j + 1).len() == 0);
            assert(feed_results(fed(history, seq, x), seq, seq.skip(j + 1)) =~= Seq::<bool>::empty());
        }
    } else {
        if feed_completes(history, seq, x) {
            // The history ends with all of `seq` and with `seq.take(j + 1)`.
            assert(suffix_matches(h2, seq, n));
            let tail = h2.subrange(h2.len() - n, h2.len() as int);
            assert(seq.take(j + 1) =~= seq.subrange(n - (j + 1), n)) by {
                assert(h2.subrange(h2.len() - (j + 1), h2.len() as int) =~= tail.subrange(n - (j + 1), n));
                assert(tail =~= seq.take(n));
                assert(seq.take(n) =~= seq);
            }
            assert(seq.take(j + 1) != seq.subrange(n - (j + 1), n));
        }
        assert(!feed_completes(history, seq, x));
        lemma_fed_wf(history, seq, x);
        assert(fed(history, seq, x) == h2);
        lemma_typing_rest(h2, seq, j + 1);
        assert(feed_results(history, seq, rest) =~= Seq::new((n - j) as nat, |i: int| i == n - j - 1));
    }
}

} // verus!

verus! {

/// An input alphabet whose values a detector can compare.
pub trait DetectorInput: Copy + Sized {
    /// `self == other`.
    fn same(&self, other: &Self) -> (r: bool)
        ensures
            r == (*self == *other),
    ;
}

/// The last `k` inputs of `history` are the first `k` of `sequence`.
fn ends_with_prefix<T: DetectorInput>(history: &[T], sequence: &[T], k: usize) -> (r: bool)
    requires
        k <= history@.len(),
        k <= sequence@.len(),
    ensures
        r == suffix_matches(history@, sequence@, k as int),
{
    let start = history.len() - k;
    let mut i: usize = 0;
    while i < k
        invariant
            start + k == history@.len(),
            history@.len() == history.len(),
            k <= sequence@.len(),
            i <= k,
            forall|j: int| 0 <= j < i ==> history@[start + j] == sequence@[j],
        decreases k - i,
    {
        if !history[start + i].same(&sequence[i]) {
            proof {
                assert(history@.subrange(start as int, history@.len() as int)[i as int] != sequence@.take(
                    k as int,
                )[i as int]);
            }
            return false;
        }
        i = i + 1;
    }
    proof {
        assert(history@.subrange(start as int, history@.len() as int) =~= sequence@.take(k as int));
    }
    true
}

/// The longest prefix of `sequence` that `history` ends with.
fn progress_in<T: DetectorInput>(history: &[T], sequence: &[T]) -> (r: usize)
    requires
        history@.len() <= sequence@.len(),
    ensures
        r == progress_of(history@, sequence@),
{
    let mut k: usize = history.len();
    while k > 0
        invariant
            k <= history@.len() <= sequence@.len(),
            longest_match_upto(history@, sequence@, k as int) == progress_of(history@, sequence@),
        decreases k,
    {
        if ends_with_prefix(history, sequence, k) {
            return k;
        }
        k = k - 1;
    }
    0
}

/// Watches a stream of inputs for one fixed sequence: reports each time the
/// inputs typed last spell it out, then starts over.
pub struct SequenceDetector<T: DetectorInput> {
    sequence: Vec<T>,
    history: Vec<T>,
}

impl<T: DetectorInput> SequenceDetector<T> {
    #[verifier::type_invariant]
    spec fn detector_inv(self) -> bool {
        detector_wf(self.history@, self.sequence@)
    }

    /// The sequence watched for.
    pub closed spec fn sequence(self) -> Seq<T> {
        self.sequence@
    }

    /// The inputs kept since the last completion (at most as many as the
    /// sequence has).
    pub closed spec fn history(self) -> Seq<T> {
        self.history@
    }

    /// A detector for `sequence`, with nothing typed yet.
    pub fn new(sequence: Vec<T>) -> (d: Self)
        requires
            sequence@.len() > 0,
        ensures
            d.sequence() == sequence@,
            d.history() == Seq::<T>::empty(),
            detector_wf(d.history(), d.sequence()),
    {
        let d = SequenceDetector { sequence, history: Vec::new() };
        proof {
            assert(progress_of(d.history@, d.sequence@) == 0);
        }
        d
    }

    /// How many inputs of the sequence have been typed: the longest prefix of
    /// the sequence that the inputs kept end with.
    pub fn progress(&self) -> (r: usize)
        ensures
            r == progress_of(self.history(), self.sequence()),
            r < self.sequence().len(),
            detector_wf(self.history(), self.sequence()),
    {
        proof {
            use_type_invariant(self);
        }
        progress_in(self.history.as_slice(), self.sequence.as_slice())
    }

    /// `input` is the next one of the sequence.
    pub fn expects(&self, input: T) -> (r: bool)
        ensures
            r == (self.sequence()[progress_of(self.history(), self.sequence())] == input),
    {
        let p = self.progress();
        self.sequence[p].same(&input)
    }

    /// Records `input`; `true` when it completes the sequence, after which the
    /// detector starts over with nothing typed.
    pub fn feed(&mut self, input: T) -> (r: bool)
        ensures
            final(self).sequence() == old(self).sequence(),
            r == feed_completes(old(self).history(), old(self).sequence(), input),
            final(self).history() == fed(old(self).history(), old(self).sequence(), input),
            r ==> progress_of(final(self).history(), final(self).sequence()) == 0,
            progress_of(final(self).history(), final(self).sequence()) <= progress_of(
                old(self).history(),
                old(self).sequence(),
            ) + 1,
            detector_wf(final(self).history(), final(self).sequence()),
    {
        proof {
            use_type_invariant(&*self);
            lemma_append_step(self.history@, self.sequence@, input);
            lemma_fed_wf(self.history@, self.sequence@, input);
        }
        let ghost old_history = self.history@;
        let mut h: Vec<T> = Vec::new();
        std::mem::swap(&mut h, &mut self.history);
        if h.len() == self.sequence.len() {
            h.remove(0);
        }
        h.push(input);
        proof {
            assert(h@ =~= appended(old_history, self.sequence@, input));
        }
        let complete = progress_in(h.as_slice(), self.sequence.as_slice()) == self.sequence.len();
        if complete {
            h.clear();
        }
        self.history = h;
        complete
    }
}

} // verus!
