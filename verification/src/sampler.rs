//! Uniform sampling of an index below a bound, by rejection against a
//! power-of-two mask.

use vstd::prelude::*;
use vstd::arithmetic::power2::*;
use vstd::bits::*;
use crate::source::{carried_on, lemma_carried_on_twice, RandomSource};

verus! {

/// The most words that are drawn for one index: as many as 64 bits can
/// count. Words are drawn until one is accepted; the count is there to give
/// the loop an end that no machine comes to.
pub const DRAW_LIMIT: u64 = u64::MAX;

/// The number of binary digits of `v`: 0 for 0, and `k` where
/// 2^(k-1) <= v < 2^k otherwise.
pub open spec fn bit_width(v: nat) -> nat
    decreases v,
{
    if v == 0 {
        0
    } else {
        1 + bit_width(v / 2)
    }
}

/// The smallest mask of the form 2^k - 1 that covers every index below `n`.
pub open spec fn mask_of(n: nat) -> nat {
    low_bits_mask(bit_width((n - 1) as nat))
}

/// The candidate index that a random word stands for when sampling below `n`.
pub open spec fn candidate_of(word: u32, n: nat) -> nat {
    word as nat % (mask_of(n) + 1) as nat
}

/// What a single word decides: its candidate if that is a valid index,
/// and otherwise that another word is needed.
pub open spec fn accepted(word: u32, n: nat) -> Option<usize> {
    if candidate_of(word, n) < n {
        Some(candidate_of(word, n) as usize)
    } else {
        None
    }
}

/// Whether sampling below `n` can never discard a word.
pub open spec fn never_rejects(n: nat) -> bool {
    mask_of(n) < n
}

/// `v` has at most `k` binary digits exactly when it is below 2^k.
pub proof fn lemma_bit_width_bound(v: nat, k: nat)
    ensures
        bit_width(v) <= k <==> v < pow2(k),
    decreases k,
{
    lemma_pow2_pos(k);
    if k == 0 {
        lemma2_to64();
    } else {
        lemma_pow2_unfold(k);
        if v > 0 {
            lemma_bit_width_bound(v / 2, (k - 1) as nat);
        }
    }
}

/// The mask covers every index below `n` and is less than twice as large:
/// of the candidates that a word can stand for, fewer than half are
/// discarded.
pub proof fn lemma_mask_bounds(n: nat)
    requires
        n >= 1,
    ensures
        n - 1 <= mask_of(n),
        n >= 2 ==> mask_of(n) + 1 <= 2 * (n - 1),
        n == 1 ==> mask_of(n) == 0,
{
    let v = (n - 1) as nat;
    let k = bit_width(v);
    lemma_pow2_pos(k);
    lemma_bit_width_bound(v, k);
    if k > 0 {
        lemma_bit_width_bound(v, (k - 1) as nat);
        lemma_pow2_unfold(k);
    } else {
        lemma2_to64();
    }
}

/// The mask is the least of its kind: no smaller mask covers every index
/// below `n`.
pub proof fn lemma_mask_is_least(n: nat, k: nat)
    requires
        n >= 1,
        n - 1 <= low_bits_mask(k),
    ensures
        mask_of(n) <= low_bits_mask(k),
{
    lemma_pow2_pos(k);
    lemma_bit_width_bound((n - 1) as nat, k);
    lemma_mask_monotonic(bit_width((n - 1) as nat), k);
}

/// Every index below `n` can be sampled: the word that equals the index is
/// accepted as that index.
pub proof fn lemma_every_index_reachable(n: nat, index: u32)
    requires
        index < n,
    ensures
        accepted(index, n) == Some(index as usize),
{
    lemma_mask_bounds(n);
    vstd::arithmetic::div_mod::lemma_small_mod(index as nat, (mask_of(n) + 1) as nat);
}

/// No candidate is favoured. Where the mask fits in a word, moving a word
/// by the distance between its candidate and any other candidate gives a
/// word that stands for that other candidate; so the words that stand for
/// one candidate are as many as those that stand for another, and among the
/// accepted candidates every index is as likely as every other.
pub proof fn lemma_candidates_evenly_spread(word: u32, n: nat, candidate: nat)
    requires
        n >= 1,
        mask_of(n) <= u32::MAX,
        candidate <= mask_of(n),
    ensures
        0 <= word - candidate_of(word, n) + candidate <= u32::MAX,
        candidate_of((word - candidate_of(word, n) + candidate) as u32, n) == candidate,
{
    let k = bit_width((n - 1) as nat);
    let modulus = (mask_of(n) + 1) as int;
    let quotient = word as int / modulus;
    let shifted = word - candidate_of(word, n) + candidate;
    lemma_pow2_pos(k);
    lemma2_to64();
    assert(modulus == pow2(k));
    assert(k <= 32) by {
        if k > 32 {
            lemma_pow2_strictly_increases(32, k);
        }
    }
    lemma_pow2_adds(k, (32 - k) as nat);
    let blocks = pow2((32 - k) as nat) as int;
    assert(modulus * blocks == 0x1_0000_0000);
    vstd::arithmetic::div_mod::lemma_fundamental_div_mod(word as int, modulus);
    vstd::arithmetic::div_mod::lemma_mod_bound(word as int, modulus);
    assert(shifted == modulus * quotient + candidate);
    assert(quotient < blocks) by {
        if quotient >= blocks {
            vstd::arithmetic::mul::lemma_mul_inequality(blocks, quotient, modulus);
            vstd::arithmetic::mul::lemma_mul_is_commutative(blocks, modulus);
            vstd::arithmetic::mul::lemma_mul_is_commutative(quotient, modulus);
        }
    }
    assert(modulus * quotient + modulus <= modulus * blocks) by {
        vstd::arithmetic::mul::lemma_mul_inequality(quotient + 1, blocks, modulus);
        vstd::arithmetic::mul::lemma_mul_is_commutative(blocks, modulus);
        vstd::arithmetic::mul::lemma_mul_is_commutative(quotient + 1, modulus);
        vstd::arithmetic::mul::lemma_mul_is_distributive_add(modulus, quotient, 1);
    }
    assert(0 <= modulus * quotient) by {
        vstd::arithmetic::mul::lemma_mul_nonnegative(modulus, quotient);
    }
    vstd::arithmetic::mul::lemma_mul_is_commutative(quotient, modulus);
    vstd::arithmetic::div_mod::lemma_fundamental_div_mod_converse(
        shifted,
        modulus,
        quotient,
        candidate as int,
    );
}

/// The largest `usize` is itself a mask: all of its bits are set.
proof fn lemma_usize_max_is_mask()
    ensures
        usize::MAX == low_bits_mask(usize::BITS as nat),
{
    lemma_low_bits_mask_values();
}

/// Masks grow with their width.
proof fn lemma_mask_monotonic(j: nat, k: nat)
    requires
        j <= k,
    ensures
        low_bits_mask(j) <= low_bits_mask(k),
{
    lemma_pow2_pos(j);
    if j < k {
        lemma_pow2_strictly_increases(j, k);
    }
}

/// The mask for `n` fits in a `usize` whenever `n` does.
proof fn lemma_mask_fits(n: usize)
    requires
        n >= 1,
    ensures
        bit_width((n - 1) as nat) <= usize::BITS,
        mask_of(n as nat) <= usize::MAX,
{
    let width = usize::BITS as nat;
    lemma_usize_max_is_mask();
    lemma_pow2_pos(width);
    lemma_bit_width_bound((n - 1) as nat, width);
    lemma_mask_monotonic(bit_width((n - 1) as nat), width);
}

/// Computes the mask against which words are tested when sampling below `n`.
pub fn mask_for(n: usize) -> (mask: usize)
    requires
        n >= 1,
    ensures
        mask == mask_of(n as nat),
{
    let limit: usize = n - 1;
    let mut mask: usize = 0;
    let ghost mut k: nat = 0;
    proof {
        lemma2_to64();
        lemma_mask_fits(n);
    }
    while mask < limit
        invariant
            limit == n - 1,
            mask == low_bits_mask(k),
            k <= bit_width(limit as nat),
            mask_of(n as nat) <= usize::MAX,
        decreases bit_width(limit as nat) - k,
    {
        proof {
            lemma_pow2_pos(k);
            lemma_bit_width_bound(limit as nat, k);
            lemma_low_bits_mask_unfold(k + 1);
            lemma_mask_monotonic(k + 1, bit_width(limit as nat));
            k = k + 1;
        }
        mask = 2 * mask + 1;
    }
    proof {
        lemma_pow2_pos(k);
        lemma_bit_width_bound(limit as nat, k);
    }
    mask
}

/// Masking a word keeps its remainder modulo the mask's successor.
proof fn lemma_masking_is_remainder(word: u64, k: nat)
    requires
        k <= 64,
    ensures
        low_bits_mask(k) <= u64::MAX,
        (word & (low_bits_mask(k) as u64)) == word as nat % (low_bits_mask(k) + 1) as nat,
{
    lemma_low_bits_mask_values();
    lemma_mask_monotonic(k, 64);
    lemma_pow2_pos(k);
    if k < 64 {
        lemma_u64_pow2_no_overflow(k);
        lemma_u64_low_bits_mask_is_mod(word, k);
    } else {
        assert(word & 0xffff_ffff_ffff_ffffu64 == word) by (bit_vector);
        vstd::arithmetic::div_mod::lemma_small_mod(word as nat, (low_bits_mask(k) + 1) as nat);
    }
}

fn accept_masked(word: u32, mask: usize, n: usize) -> (outcome: Option<usize>)
    requires
        n >= 1,
        mask == mask_of(n as nat),
    ensures
        outcome == accepted(word, n as nat),
{
    proof {
        lemma_mask_fits(n);
        lemma_masking_is_remainder(word as u64, bit_width((n - 1) as nat));
    }
    let candidate: u64 = (word as u64) & (mask as u64);
    if candidate < n as u64 {
        Some(candidate as usize)
    } else {
        None
    }
}

/// Decides what one random word yields when sampling below `n`: the index
/// it stands for, or `None` when the word has to be discarded.
pub fn accept(word: u32, n: usize) -> (outcome: Option<usize>)
    requires
        n >= 1,
    ensures
        outcome == accepted(word, n as nat),
{
    let mask = mask_for(n);
    accept_masked(word, mask, n)
}

/// Whether each of `words` has to be discarded when sampling below `n`.
pub open spec fn all_rejected(words: Seq<u32>, n: nat) -> bool {
    forall|k: int| 0 <= k < words.len() ==> accepted(#[trigger] words[k], n) is None
}

/// Whether `words` are what sampling one index below `n` draws, to end
/// with `index`: all of them discarded but the last, which is accepted as
/// the index, however many went before it within what `DRAW_LIMIT` can
/// count; or, with no index, `DRAW_LIMIT` words that are all discarded.
pub open spec fn sampled(words: Seq<u32>, n: nat, index: Option<usize>) -> bool {
    match index {
        Some(i) => {
            &&& 1 <= words.len() <= DRAW_LIMIT
            &&& all_rejected(words.drop_last(), n)
            &&& accepted(words.last(), n) == Some(i)
        },
        None => words.len() == DRAW_LIMIT && all_rejected(words, n),
    }
}

/// Whether the words between the `k`-th cut and the next are what sampling
/// the `k`-th index draws.
pub open spec fn sample_at(words: Seq<u32>, n: nat, indices: Seq<usize>, cuts: Seq<int>, k: int) -> bool {
    &&& 0 <= cuts[k] <= cuts[k + 1] <= words.len()
    &&& sampled(words.subrange(cuts[k], cuts[k + 1]), n, Some(indices[k]))
}

/// Whether `cuts` part `words` into what sampling each of `indices` below
/// `n` draws: the words between one cut and the next are those of one
/// index, and the cuts run from the first word to behind the last.
pub open spec fn cut_into_samples(words: Seq<u32>, n: nat, indices: Seq<usize>, cuts: Seq<int>) -> bool {
    &&& cuts.len() == indices.len() + 1
    &&& cuts[0] == 0
    &&& cuts.last() == words.len()
    &&& forall|k: int| 0 <= k < indices.len() ==> #[trigger] sample_at(words, n, indices, cuts, k)
}

/// Whether `words` are what sampling the `indices` below `n` draws, one
/// index after the other and no word more.
pub open spec fn drawn(words: Seq<u32>, n: nat, indices: Seq<usize>) -> bool {
    exists|cuts: Seq<int>| #[trigger] cut_into_samples(words, n, indices, cuts)
}

/// Whether sampling below `n` gave up on `words` after fewer than `count`
/// indices: the words draw some indices in full, and then `DRAW_LIMIT` of
/// them in a row are discarded.
pub open spec fn gave_up(words: Seq<u32>, n: nat, count: nat) -> bool {
    exists|cut: int, indices: Seq<usize>|
        0 <= cut <= words.len() && indices.len() < count && #[trigger] drawn(words.take(cut), n, indices)
            && sampled(words.skip(cut), n, None)
}

/// The indices that `words` stand for when sampling below `n`: the
/// candidates of the words that are accepted, in the order of the words.
pub open spec fn indices_of(words: Seq<u32>, n: nat) -> Seq<usize>
    decreases words.len(),
{
    if words.len() == 0 {
        Seq::empty()
    } else {
        match accepted(words.last(), n) {
            Some(index) => indices_of(words.drop_last(), n).push(index),
            None => indices_of(words.drop_last(), n),
        }
    }
}

/// The words that were added to `before` to give `after`.
pub open spec fn added(before: Seq<u32>, after: Seq<u32>) -> Seq<u32> {
    after.skip(before.len() as int)
}

/// The indices of words in a row are those of the first words, then those
/// of the rest.
pub proof fn lemma_indices_of_concat(front: Seq<u32>, back: Seq<u32>, n: nat)
    ensures
        indices_of(front + back, n) == indices_of(front, n) + indices_of(back, n),
    decreases back.len(),
{
    if back.len() == 0 {
        assert(front + back =~= front);
        assert(indices_of(front, n) + indices_of(back, n) =~= indices_of(front, n));
    } else {
        lemma_indices_of_concat(front, back.drop_last(), n);
        assert((front + back).drop_last() =~= front + back.drop_last());
        assert((front + back).last() == back.last());
        match accepted(back.last(), n) {
            Some(index) => {
                assert(indices_of(front, n) + indices_of(back.drop_last(), n).push(index) =~= (
                indices_of(front, n) + indices_of(back.drop_last(), n)).push(index));
            },
            None => {},
        }
    }
}

/// Discarded words stand for no index.
pub proof fn lemma_indices_of_rejected(words: Seq<u32>, n: nat)
    requires
        all_rejected(words, n),
    ensures
        indices_of(words, n) == Seq::<usize>::empty(),
    decreases words.len(),
{
    if words.len() > 0 {
        assert(accepted(words.last(), n) is None);
        lemma_indices_of_rejected(words.drop_last(), n);
    }
}

proof fn lemma_cut_indices(words: Seq<u32>, n: nat, indices: Seq<usize>, cuts: Seq<int>)
    requires
        cut_into_samples(words, n, indices, cuts),
    ensures
        indices == indices_of(words, n),
        forall|k: int| 0 <= k < indices.len() ==> #[trigger] indices[k] < n,
        indices.len() <= words.len() <= indices.len() * DRAW_LIMIT,
    decreases indices.len(),
{
    if indices.len() > 0 {
        let last = indices.len() - 1;
        let cut = cuts[last];
        let front = words.take(cut);
        let run = words.skip(cut);
        assert(sample_at(words, n, indices, cuts, last));
        assert(run =~= words.subrange(cuts[last], cuts[last + 1]));
        let fewer = cuts.drop_last();
        assert forall|k: int| 0 <= k < last implies #[trigger] sample_at(
            front,
            n,
            indices.drop_last(),
            fewer,
            k,
        ) by {
            assert(sample_at(words, n, indices, cuts, k));
            lemma_cuts_ascend(words, n, indices, cuts, k + 1, last);
            assert(front.subrange(cuts[k], cuts[k + 1]) =~= words.subrange(cuts[k], cuts[k + 1]));
        }
        lemma_cut_indices(front, n, indices.drop_last(), fewer);
        lemma_indices_of_rejected(run.drop_last(), n);
        assert(indices_of(run, n) =~= seq![indices.last()]);
        lemma_indices_of_concat(front, run, n);
        assert(front + run =~= words);
        assert(indices =~= indices.drop_last() + seq![indices.last()]);
        assert(indices.len() * DRAW_LIMIT == indices.drop_last().len() * DRAW_LIMIT + DRAW_LIMIT)
            by (nonlinear_arith)
            requires
                indices.len() == indices.drop_last().len() + 1,
        ;
    } else {
        assert(indices =~= indices_of(words, n));
    }
}

proof fn lemma_cuts_ascend(words: Seq<u32>, n: nat, indices: Seq<usize>, cuts: Seq<int>, i: int, j: int)
    requires
        cut_into_samples(words, n, indices, cuts),
        0 <= i <= j <= indices.len(),
    ensures
        0 <= cuts[i] <= cuts[j] <= words.len(),
    decreases j - i,
{
    if i < j {
        assert(sample_at(words, n, indices, cuts, j - 1));
        lemma_cuts_ascend(words, n, indices, cuts, i, j - 1);
    } else if i < indices.len() {
        assert(sample_at(words, n, indices, cuts, i));
    }
}

/// What is sampled is what the words stand for: the indices are the
/// candidates of the accepted words, no word is passed over and none is
/// used twice; each index lies below `n`; and an index takes one word at
/// least and `DRAW_LIMIT` words at most.
pub proof fn lemma_drawn_indices(words: Seq<u32>, n: nat, indices: Seq<usize>)
    requires
        drawn(words, n, indices),
    ensures
        indices == indices_of(words, n),
        forall|k: int| 0 <= k < indices.len() ==> #[trigger] indices[k] < n,
        indices.len() <= words.len() <= indices.len() * DRAW_LIMIT,
{
    let cuts = choose|cuts: Seq<int>| #[trigger] cut_into_samples(words, n, indices, cuts);
    lemma_cut_indices(words, n, indices, cuts);
}

/// Sampling gives up only where an index was asked for.
pub proof fn lemma_gave_up_after_draws(words: Seq<u32>, n: nat, count: nat)
    requires
        gave_up(words, n, count),
    ensures
        count > 0,
        words.len() >= DRAW_LIMIT,
{
    let (cut, indices) = choose|cut: int, indices: Seq<usize>|
        0 <= cut <= words.len() && indices.len() < count && #[trigger] drawn(words.take(cut), n, indices)
            && sampled(words.skip(cut), n, None);
}

/// Where no word can be discarded, sampling never gives up.
pub proof fn lemma_never_gives_up(words: Seq<u32>, n: nat, count: nat)
    requires
        n >= 1,
        never_rejects(n),
    ensures
        !gave_up(words, n, count),
{
    if gave_up(words, n, count) {
        let (cut, indices) = choose|cut: int, indices: Seq<usize>|
            0 <= cut <= words.len() && indices.len() < count && #[trigger] drawn(
                words.take(cut),
                n,
                indices,
            ) && sampled(words.skip(cut), n, None);
        let word = words.skip(cut)[0];
        assert(accepted(word, n) is None);
        vstd::arithmetic::div_mod::lemma_mod_bound(word as int, (mask_of(n) + 1) as int);
    }
}

/// Draws words from `source` until one is accepted, and returns its index:
/// that of the first accepted word, however many were discarded before it.
/// `None` stands for a count of draws that has run out.
pub fn sample_index<R: RandomSource>(source: &mut R, n: usize) -> (index: Option<usize>)
    requires
        n >= 1,
    ensures
        carried_on(*old(source), *final(source)),
        sampled(added(old(source).served(), final(source).served()), n as nat, index),
        index matches Some(i) ==> i < n,
        never_rejects(n as nat) ==> index is Some,
        n == 1 ==> index == Some(0usize),
{
    let mask = mask_for(n);
    let mut draws: u64 = 0;
    let ghost before = source.served();
    proof {
        lemma_low_bits_mask_values();
        assert(added(before, source.served()) =~= Seq::<u32>::empty());
    }
    while draws < DRAW_LIMIT
        invariant
            n >= 1,
            mask == mask_of(n as nat),
            draws <= DRAW_LIMIT,
            never_rejects(n as nat) ==> draws == 0,
            before == old(source).served(),
            carried_on(*old(source), *source),
            added(before, source.served()).len() == draws,
            all_rejected(added(before, source.served()), n as nat),
        decreases DRAW_LIMIT - draws,
    {
        let ghost earlier = added(before, source.served());
        let ghost previous = *source;
        let word = source.next_u32();
        let ghost now = added(before, source.served());
        proof {
            assert(carried_on(previous, *source));
            lemma_carried_on_twice(*old(source), previous, *source);
            assert(now =~= earlier.push(word));
            assert(now.drop_last() =~= earlier);
        }
        match accept_masked(word, mask, n) {
            Some(candidate) => {
                return Some(candidate);
            },
            None => {
                proof {
                    if never_rejects(n as nat) {
                        vstd::arithmetic::div_mod::lemma_mod_bound(
                            word as int,
                            (mask_of(n as nat) + 1) as int,
                        );
                    }
                }
                draws = draws + 1;
            },
        }
    }
    None
}

/// Samples `count` indices below `n`, one after the other. Gives up with
/// `None` as soon as one of them cannot be had from `source`.
pub fn draw_indices<R: RandomSource>(source: &mut R, n: usize, count: usize) -> (indices: Option<Vec<usize>>)
    requires
        n >= 1,
    ensures
        carried_on(*old(source), *final(source)),
        match indices {
            Some(sequence) => sequence@.len() == count && drawn(
                added(old(source).served(), final(source).served()),
                n as nat,
                sequence@,
            ),
            None => gave_up(added(old(source).served(), final(source).served()), n as nat, count as nat),
        },
        indices matches Some(sequence) ==> forall|k: int|
            0 <= k < count ==> #[trigger] sequence@[k] < n,
        count == 0 || never_rejects(n as nat) ==> indices is Some,
{
    let mut sequence: Vec<usize> = Vec::new();
    let mut k: usize = 0;
    let ghost before = source.served();
    let ghost mut cuts: Seq<int> = seq![0int];
    proof {
        assert(added(before, source.served()) =~= Seq::<u32>::empty());
    }
    while k < count
        invariant
            n >= 1,
            k <= count,
            sequence@.len() == k,
            forall|i: int| 0 <= i < k ==> #[trigger] sequence@[i] < n,
            before == old(source).served(),
            carried_on(*old(source), *source),
            cut_into_samples(added(before, source.served()), n as nat, sequence@, cuts),
        decreases count - k,
    {
        let ghost earlier = added(before, source.served());
        let ghost start = source.served();
        let ghost previous = *source;
        let ghost known = sequence@;
        let sample = sample_index(source, n);
        let ghost now = added(before, source.served());
        proof {
            lemma_carried_on_twice(*old(source), previous, *source);
            assert(now.take(earlier.len() as int) =~= earlier);
            assert(now.skip(earlier.len() as int) =~= added(start, source.served()));
        }
        match sample {
            Some(index) => {
                sequence.push(index);
                proof {
                    let longer = cuts.push(now.len() as int);
                    assert forall|i: int| 0 <= i < sequence@.len() implies #[trigger] sample_at(
                        now,
                        n as nat,
                        sequence@,
                        longer,
                        i,
                    ) by {
                        if i < known.len() {
                            assert(sample_at(earlier, n as nat, known, cuts, i));
                            assert(now.subrange(cuts[i], cuts[i + 1]) =~= earlier.subrange(
                                cuts[i],
                                cuts[i + 1],
                            ));
                        } else {
                            assert(now.subrange(longer[i], longer[i + 1]) =~= now.skip(
                                earlier.len() as int,
                            ));
                        }
                    }
                    cuts = longer;
                }
            },
            None => {
                proof {
                    assert(cut_into_samples(now.take(earlier.len() as int), n as nat, known, cuts));
                    assert(drawn(now.take(earlier.len() as int), n as nat, known));
                }
                return None;
            },
        }
        k = k + 1;
    }
    proof {
        lemma_cut_indices(added(before, source.served()), n as nat, sequence@, cuts);
    }
    Some(sequence)
}

} // verus!
