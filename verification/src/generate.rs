//! Autoregressive generation: which index a list of scores picks, which
//! scores stay in the draw, and how the context slides over the text.

use crate::single::Single;
use vstd::prelude::*;

verus! {

/// The index that a scan of the first `n` scores holds on to: it moves only
/// to a strictly larger score.
pub open spec fn best_of(logits: Seq<Single>, n: int) -> int
    decreases n,
{
    if n <= 0 {
        0
    } else {
        let best = best_of(logits, n - 1);
        if logits[best].less(logits[n - 1]) {
            n - 1
        } else {
            best
        }
    }
}

/// The index of the largest score, the first of several. A score that is
/// not a number is never larger, and none is larger than it.
pub fn argmax(logits: &Vec<Single>) -> (best: usize)
    ensures
        best == best_of(logits@, logits@.len() as int),
        logits@.len() > 0 ==> best < logits@.len(),
        (forall|i: int| 0 <= i < logits@.len() ==> !(#[trigger] logits@[i]).nan()) ==> {
            &&& forall|i: int|
                0 <= i < logits@.len() ==> (#[trigger] logits@[i]).at_most(logits@[best as int])
            &&& forall|i: int| 0 <= i < best ==> (#[trigger] logits@[i]).less(logits@[best as int])
        },
{
    let mut best: usize = 0;
    let mut i: usize = 0;
    while i < logits.len()
        invariant
            i <= logits.len(),
            best == best_of(logits@, i as int),
            best <= i,
            i > 0 ==> best < i,
            i == 0 ==> best == 0,
            (forall|k: int| 0 <= k < logits@.len() ==> !(#[trigger] logits@[k]).nan()) ==> {
                &&& forall|k: int|
                    0 <= k < i ==> (#[trigger] logits@[k]).at_most(logits@[best as int])
                &&& forall|k: int|
                    0 <= k < best ==> (#[trigger] logits@[k]).less(logits@[best as int])
            },
        decreases logits.len() - i,
    {
        if logits[best].is_less(logits[i]) {
            best = i;
        }
        i += 1;
    }
    best
}

/// Whether the draw is greedy: it is at a temperature of zero or below.
pub fn is_greedy(temperature: Single) -> (yes: bool)
    ensures
        yes == temperature.at_most(Single { bits: 0 }),
{
    temperature.is_at_most(Single { bits: 0 })
}

/// How many of the first `n` scores are larger than `s`.
pub open spec fn larger(scores: Seq<Single>, s: Single, n: int) -> nat
    decreases n,
{
    if n <= 0 {
        0
    } else {
        larger(scores, s, n - 1) + if s.less(scores[n - 1]) {
            1nat
        } else {
            0nat
        }
    }
}

pub const NEGATIVE_INFINITY: u32 = 0xff80_0000;

/// What is left of a score when only the `top_k` largest stay in the draw:
/// the score, where fewer than `top_k` scores are larger. Equal scores stay
/// together. Zero means that all stay.
pub open spec fn kept_score(scores: Seq<Single>, top_k: usize, i: int) -> Single {
    if top_k == 0 || top_k >= scores.len() || larger(scores, scores[i], scores.len() as int)
        < top_k {
        scores[i]
    } else {
        Single { bits: NEGATIVE_INFINITY }
    }
}

/// The scores with all but the `top_k` largest set to negative infinity.
pub fn keep_top(scores: &Vec<Single>, top_k: usize) -> (kept: Vec<Single>)
    requires
        forall|i: int| 0 <= i < scores@.len() ==> !(#[trigger] scores@[i]).nan(),
    ensures
        kept@ == Seq::new(scores@.len(), |i: int| kept_score(scores@, top_k, i)),
{
    let all: bool = top_k == 0 || top_k >= scores.len();
    let mut kept: Vec<Single> = Vec::new();
    let mut i: usize = 0;
    while i < scores.len()
        invariant
            i <= scores.len(),
            all == (top_k == 0 || top_k >= scores@.len()),
            kept@ == Seq::new(i as nat, |k: int| kept_score(scores@, top_k, k)),
        decreases scores.len() - i,
    {
        let s: Single = scores[i];
        let mut above: usize = 0;
        let mut k: usize = 0;
        while k < scores.len()
            invariant
                k <= scores.len(),
                above <= k,
                above == larger(scores@, s, k as int),
            decreases scores.len() - k,
        {
            if s.is_less(scores[k]) {
                above += 1;
            }
            k += 1;
        }
        if all || above < top_k {
            kept.push(s);
        } else {
            kept.push(Single { bits: NEGATIVE_INFINITY });
        }
        i += 1;
        assert(kept@ =~= Seq::new(i as nat, |k: int| kept_score(scores@, top_k, k)));
    }
    kept
}

/// What a running generation needs next.
#[derive(Debug)]
pub enum Need {
    /// Encode this context, then ask again.
    Encode(Vec<usize>),
    /// Score the continuations of this decoder input.
    Score(Vec<usize>),
    /// All characters are there.
    Done,
}

/// A generation that continues a seed. Each rollout encodes the last
/// `ctx_len` characters and decodes up to `tgt_len` new ones; then the window
/// moves forward.
#[derive(Debug)]
pub struct Rollout {
    /// The seed and everything generated so far.
    pub full: Vec<usize>,
    pub seed_len: usize,
    pub total_new: usize,
    pub ctx_len: usize,
    pub tgt_len: usize,
    /// The decoder input of the running rollout; empty before its context is
    /// encoded.
    pub dec: Vec<usize>,
}

impl Rollout {
    pub open spec fn produced(&self) -> int {
        self.full@.len() - self.seed_len
    }

    pub open spec fn wf(&self) -> bool {
        &&& 0 < self.ctx_len <= self.seed_len <= self.full@.len()
        &&& self.tgt_len > 0
        &&& self.produced() <= self.total_new
        &&& self.dec@.len() <= self.tgt_len
        &&& self.dec@.len() > 0 ==> self.dec@.len() <= self.produced() + 1
        &&& self.dec@.len() > 0 ==> self.dec@ == self.full@.skip(
            self.full@.len() - self.dec@.len(),
        )
    }

    /// The context that the next rollout encodes.
    pub open spec fn context(&self) -> Seq<usize> {
        self.full@.skip(self.full@.len() - self.ctx_len)
    }

    /// A generation of `total_new` characters after the seed.
    pub fn new(seed: Vec<usize>, total_new: usize, ctx_len: usize, tgt_len: usize) -> (run: Rollout)
        requires
            0 < ctx_len <= seed@.len(),
            tgt_len > 0,
        ensures
            run.wf(),
            run.full@ == seed@,
            run.seed_len == seed@.len(),
            run.total_new == total_new,
            run.ctx_len == ctx_len,
            run.tgt_len == tgt_len,
            run.dec@.len() == 0,
    {
        let seed_len: usize = seed.len();
        Rollout { full: seed, seed_len, total_new, ctx_len, tgt_len, dec: Vec::new() }
    }

    fn tail(&self, n: usize) -> (out: Vec<usize>)
        requires
            n <= self.full@.len(),
        ensures
            out@ == self.full@.skip(self.full@.len() - n),
    {
        let from: usize = self.full.len() - n;
        let mut out: Vec<usize> = Vec::new();
        let mut i: usize = from;
        while i < self.full.len()
            invariant
                from <= i <= self.full.len(),
                out@ == self.full@.subrange(from as int, i as int),
            decreases self.full.len() - i,
        {
            out.push(self.full[i]);
            i += 1;
            assert(out@ =~= self.full@.subrange(from as int, i as int));
        }
        assert(out@ =~= self.full@.skip(from as int));
        out
    }

    /// What comes next: nothing once all characters are there, the context
    /// where no rollout is running, and otherwise the decoder input.
    pub fn need(&self) -> (need: Need)
        requires
            self.wf(),
        ensures
            self.produced() >= self.total_new ==> need is Done,
            self.produced() < self.total_new && self.dec@.len() == 0 ==> (need matches Need::Encode(
                src,
            ) && src@ == self.context()),
            self.produced() < self.total_new && self.dec@.len() > 0 ==> (need matches Need::Score(
                dec,
            ) && dec@ == self.dec@),
    {
        if self.full.len() - self.seed_len >= self.total_new {
            Need::Done
        } else if self.dec.len() == 0 {
            Need::Encode(self.tail(self.ctx_len))
        } else {
            Need::Score(self.tail(self.dec.len()))
        }
    }

    /// The context was encoded: the decoder starts from its last character.
    pub fn encoded(&mut self)
        requires
            old(self).wf(),
            old(self).produced() < old(self).total_new,
            old(self).dec@.len() == 0,
        ensures
            final(self).wf(),
            final(self).full@ == old(self).full@,
            final(self).dec@ == seq![old(self).full@.last()],
            final(self).seed_len == old(self).seed_len,
            final(self).total_new == old(self).total_new,
            final(self).ctx_len == old(self).ctx_len,
            final(self).tgt_len == old(self).tgt_len,
    {
        let last: usize = self.full[self.full.len() - 1];
        self.dec.push(last);
        assert(self.dec@ =~= seq![old(self).full@.last()]);
        assert(self.dec@ =~= self.full@.skip(self.full@.len() - 1));
    }

    /// This character was drawn.
    pub open spec fn drew(&self, next: Rollout, c: usize) -> bool {
        &&& next.wf()
        &&& next.full@ == self.full@.push(c)
        &&& next.dec@ == if self.dec@.len() >= self.tgt_len {
            Seq::empty()
        } else {
            self.dec@.push(c)
        }
        &&& next.seed_len == self.seed_len
        &&& next.total_new == self.total_new
        &&& next.ctx_len == self.ctx_len
        &&& next.tgt_len == self.tgt_len
    }

    /// A character was drawn: it joins the text, and the rollout ends once it
    /// has given `tgt_len` characters.
    pub fn drawn(&mut self, next: usize)
        requires
            old(self).wf(),
            old(self).produced() < old(self).total_new,
            old(self).dec@.len() > 0,
        ensures
            final(self).wf(),
            final(self).full@ == old(self).full@.push(next),
            final(self).dec@ == if old(self).dec@.len() >= old(self).tgt_len {
                Seq::empty()
            } else {
                old(self).dec@.push(next)
            },
            final(self).seed_len == old(self).seed_len,
            final(self).total_new == old(self).total_new,
            final(self).ctx_len == old(self).ctx_len,
            final(self).tgt_len == old(self).tgt_len,
            old(self).drew(*final(self), next),
    {
        let ghost full = self.full@;
        let ghost dec = self.dec@;
        let over: bool = self.dec.len() >= self.tgt_len;
        self.full.push(next);
        if over {
            self.dec = Vec::new();
        } else {
            self.dec.push(next);
            assert(dec == full.skip(full.len() - dec.len()));
            assert(self.dec@ =~= self.full@.skip(self.full@.len() - self.dec@.len()));
        }
    }

    /// The characters after the seed.
    pub fn output(&self) -> (out: Vec<usize>)
        requires
            self.wf(),
        ensures
            out@ == self.full@.skip(self.seed_len as int),
    {
        self.tail(self.full.len() - self.seed_len)
    }
}

/// When nothing is needed any more, exactly the asked number of characters
/// stands behind the seed.
pub proof fn law_generation_gives_what_was_asked(run: Rollout)
    requires
        run.wf(),
        run.produced() >= run.total_new,
    ensures
        run.full@.skip(run.seed_len as int).len() == run.total_new,
        run.full@.take(run.seed_len as int) + run.full@.skip(run.seed_len as int) == run.full@,
{
    assert(run.full@.take(run.seed_len as int) + run.full@.skip(run.seed_len as int) =~= run.full@);
}

/// Where only the `top_k` largest scores stay, a score that stays is larger
/// than every score that goes, and what goes can no longer be drawn.
pub proof fn law_the_largest_scores_stay(scores: Seq<Single>, top_k: usize, i: int, j: int)
    requires
        0 < top_k < scores.len(),
        forall|k: int| 0 <= k < scores.len() ==> !(#[trigger] scores[k]).nan(),
        0 <= i < scores.len(),
        0 <= j < scores.len(),
        larger(scores, scores[i], scores.len() as int) < top_k,
        larger(scores, scores[j], scores.len() as int) >= top_k,
    ensures
        kept_score(scores, top_k, i) == scores[i],
        kept_score(scores, top_k, j) == (Single { bits: NEGATIVE_INFINITY }),
        scores[j].less(scores[i]),
{
    if !scores[j].less(scores[i]) {
        lemma_larger_shrinks(scores, scores[i], scores[j], scores.len() as int);
    }
}

proof fn lemma_larger_shrinks(scores: Seq<Single>, low: Single, high: Single, n: int)
    requires
        0 <= n <= scores.len(),
        low.at_most(high),
    ensures
        larger(scores, high, n) <= larger(scores, low, n),
    decreases n,
{
    if n > 0 {
        lemma_larger_shrinks(scores, low, high, n - 1);
    }
}

/// The places of the scores that are larger than `s`.
spec fn places_above(scores: Seq<Single>, s: Single, n: int) -> Set<int> {
    Set::new(|k: int| 0 <= k < n && s.less(scores[k]))
}

proof fn lemma_larger_counts(scores: Seq<Single>, s: Single, n: int)
    requires
        0 <= n <= scores.len(),
    ensures
        places_above(scores, s, n).finite(),
        larger(scores, s, n) == places_above(scores, s, n).len(),
    decreases n,
{
    if n == 0 {
        assert(places_above(scores, s, 0) =~= Set::<int>::empty());
    } else {
        lemma_larger_counts(scores, s, n - 1);
        let before = places_above(scores, s, n - 1);
        if s.less(scores[n - 1]) {
            assert(places_above(scores, s, n) =~= before.insert(n - 1));
        } else {
            assert(places_above(scores, s, n) =~= before);
        }
    }
}

/// A place outside of `set` with the largest score there.
proof fn lemma_largest_outside(scores: Seq<Single>, set: Set<int>, n: int) -> (best: int)
    requires
        0 <= n <= scores.len(),
        forall|k: int| 0 <= k < scores.len() ==> !(#[trigger] scores[k]).nan(),
        exists|k: int| 0 <= k < n && !set.contains(k),
    ensures
        0 <= best < n,
        !set.contains(best),
        forall|k: int| 0 <= k < n && !set.contains(k) ==> (#[trigger] scores[k]).at_most(
            scores[best],
        ),
    decreases n,
{
    assert(!scores[n - 1].nan());
    if exists|k: int| 0 <= k < n - 1 && !set.contains(k) {
        let b = lemma_largest_outside(scores, set, n - 1);
        assert(!scores[b].nan());
        if !set.contains(n - 1) && scores[b].less(scores[n - 1]) {
            n - 1
        } else {
            b
        }
    } else {
        n - 1
    }
}

/// A place in `set` with the smallest score there.
proof fn lemma_smallest_inside(scores: Seq<Single>, set: Set<int>, n: int) -> (best: int)
    requires
        0 <= n <= scores.len(),
        forall|k: int| 0 <= k < scores.len() ==> !(#[trigger] scores[k]).nan(),
        exists|k: int| 0 <= k < n && set.contains(k),
    ensures
        0 <= best < n,
        set.contains(best),
        forall|k: int| 0 <= k < n && set.contains(k) ==> scores[best].at_most(
            #[trigger] scores[k],
        ),
    decreases n,
{
    assert(!scores[n - 1].nan());
    if exists|k: int| 0 <= k < n - 1 && set.contains(k) {
        let b = lemma_smallest_inside(scores, set, n - 1);
        assert(!scores[b].nan());
        if set.contains(n - 1) && scores[n - 1].less(scores[b]) {
            n - 1
        } else {
            b
        }
    } else {
        n - 1
    }
}

/// What stays in the draw: with `top_k` between 1 and the number of scores, at
/// least `top_k` scores stay as they were, every other one becomes negative
/// infinity, and what stays is larger than what goes. Where the scores are
/// different finite numbers, exactly `top_k` stay. Otherwise all stay.
pub proof fn law_top_k_scores_stay(scores: Seq<Single>, top_k: usize, kept: Seq<Single>)
    requires
        forall|i: int| 0 <= i < scores.len() ==> !(#[trigger] scores[i]).nan(),
        kept == Seq::new(scores.len(), |i: int| kept_score(scores, top_k, i)),
    ensures
        kept.len() == scores.len(),
        top_k == 0 || top_k >= scores.len() ==> kept == scores,
        forall|i: int|
            0 <= i < scores.len() ==> #[trigger] kept[i] == scores[i] || kept[i] == (Single {
                bits: 0xff80_0000,
            }),
        forall|i: int, j: int|
            0 <= i < scores.len() && 0 <= j < scores.len() && kept[i] == scores[i]
                && scores[i].bits != 0xff80_0000 && kept[j] != scores[j] ==> (#[trigger] scores[j]).less(#[trigger] scores[i]),
        0 < top_k < scores.len() ==> {
            let stay = Set::new(|i: int| 0 <= i < scores.len() && kept[i] == scores[i]);
            &&& stay.finite()
            &&& stay.len() >= top_k
            &&& (forall|i: int| 0 <= i < scores.len() ==> (#[trigger] scores[i]).finite()) && (
            forall|i: int, j: int|
                0 <= i < scores.len() && 0 <= j < scores.len() && i != j ==> !(
                #[trigger] scores[i]).equals(#[trigger] scores[j])) ==> stay.len() == top_k
        },
{
    let n = scores.len() as int;
    if top_k == 0 || top_k >= scores.len() {
        assert(kept =~= scores);
    } else {
        let few = Set::new(|i: int| 0 <= i < n && larger(scores, scores[i], n) < top_k);
        let stay = Set::new(|i: int| 0 <= i < scores.len() && kept[i] == scores[i]);
        let all = vstd::set_lib::set_int_range(0, n);
        vstd::set_lib::lemma_int_range(0, n);
        assert(few.subset_of(stay));
        assert(stay.subset_of(all));
        vstd::set_lib::lemma_len_subset(stay, all);
        vstd::set_lib::lemma_len_subset(few, stay);
        if few.len() < top_k {
            assert(exists|k: int| 0 <= k < n && !few.contains(k)) by {
                if forall|k: int| 0 <= k < n ==> few.contains(k) {
                    assert(few =~= all);
                }
            }
            let best = lemma_largest_outside(scores, few, n);
            lemma_larger_counts(scores, scores[best], n);
            let above = places_above(scores, scores[best], n);
            assert(above.subset_of(few)) by {
                assert forall|k: int| above.contains(k) implies few.contains(k) by {
                    if !few.contains(k) {
                        assert(scores[k].at_most(scores[best]));
                    }
                }
            }
            vstd::set_lib::lemma_len_subset(above, few);
            assert(false);
        }
        assert forall|i: int, j: int|
            0 <= i < scores.len() && 0 <= j < scores.len() && kept[i] == scores[i]
                && scores[i].bits != 0xff80_0000 && kept[j] != scores[j] implies (
        #[trigger] scores[j]).less(#[trigger] scores[i]) by {
            assert(!scores[i].nan() && !scores[j].nan());
            if !scores[j].less(scores[i]) {
                lemma_larger_shrinks(scores, scores[i], scores[j], n);
            }
        }
        if (forall|i: int| 0 <= i < scores.len() ==> (#[trigger] scores[i]).finite()) && (forall|
            i: int,
            j: int,
        |
            0 <= i < scores.len() && 0 <= j < scores.len() && i != j ==> !(
            #[trigger] scores[i]).equals(#[trigger] scores[j])) {
            assert(stay =~= few) by {
                assert forall|i: int| stay.contains(i) implies few.contains(i) by {
                    assert(scores[i].finite());
                }
            }
            assert(exists|k: int| 0 <= k < n && few.contains(k)) by {
                if forall|k: int| 0 <= k < n ==> !few.contains(k) {
                    assert(few =~= Set::<int>::empty());
                }
            }
            let least = lemma_smallest_inside(scores, few, n);
            lemma_larger_counts(scores, scores[least], n);
            let above = places_above(scores, scores[least], n);
            assert(few.remove(least).subset_of(above)) by {
                assert forall|k: int| few.remove(least).contains(k) implies above.contains(k) by {
                    assert(scores[least].at_most(scores[k]));
                    assert(!scores[least].equals(scores[k]));
                }
            }
            vstd::set_lib::lemma_len_subset(few.remove(least), above);
        }
    }
}

/// The scan for the largest score: with numbers only, it ends at the first of
/// the largest scores.
pub proof fn law_the_first_largest_score_wins(logits: Seq<Single>, n: int)
    requires
        0 < n <= logits.len(),
        forall|i: int| 0 <= i < logits.len() ==> !(#[trigger] logits[i]).nan(),
    ensures
        0 <= best_of(logits, n) < n,
        forall|i: int| 0 <= i < n ==> (#[trigger] logits[i]).at_most(logits[best_of(logits, n)]),
        forall|i: int| 0 <= i < best_of(logits, n) ==> (#[trigger] logits[i]).less(
            logits[best_of(logits, n)],
        ),
    decreases n,
{
    assert(!logits[0].nan() && !logits[n - 1].nan());
    if n > 1 {
        law_the_first_largest_score_wins(logits, n - 1);
        assert(!logits[best_of(logits, n - 1)].nan());
    }
}

/// A character that is drawn joins the text, and a rollout goes on until it has
/// given `tgt_len` characters: the decoder then sees what was said last, from
/// the end of the context on.
pub proof fn law_a_rollout_gives_its_length(run: Rollout, next: Rollout, c: usize)
    requires
        run.wf(),
        run.dec@.len() > 0,
        run.drew(next, c),
    ensures
        next.full@.len() == run.full@.len() + 1,
        next.full@[next.full@.len() - 1] == c,
        forall|i: int| 0 <= i < run.full@.len() ==> next.full@[i] == run.full@[i],
        next.produced() == run.produced() + 1,
        run.dec@.len() == run.tgt_len ==> next.dec@.len() == 0,
        run.dec@.len() < run.tgt_len ==> {
            &&& next.dec@.len() == run.dec@.len() + 1
            &&& forall|i: int|
                0 <= i < next.dec@.len() ==> #[trigger] next.dec@[i] == next.full@[next.full@.len()
                    - next.dec@.len() + i]
        },
{
    if run.dec@.len() < run.tgt_len {
        assert(next.dec@ == next.full@.skip(next.full@.len() - next.dec@.len()));
    }
}

/// The context of a rollout is the end of the text, as long as asked for.
pub proof fn law_the_context_is_the_end_of_the_text(run: Rollout, i: int)
    requires
        run.wf(),
        0 <= i < run.ctx_len,
    ensures
        run.context().len() == run.ctx_len,
        run.context()[i] == run.full@[run.full@.len() - run.ctx_len + i],
{
}

} // verus!
