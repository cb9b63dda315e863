//! Rule-based rhythm generation for training data.
//!
//! A rhythmic pattern is a vector of onsets and rests. Euclidean rhythms
//! distribute `k` onsets as evenly as possible over `n` pulses by the
//! repeated regrouping of Bjorklund's algorithm: start from `n` one-pulse
//! groups, the first `k` of them onsets, and fold the trailing groups
//! into the leading ones until at most one remainder group is left.

use vstd::prelude::*;

verus! {

/// A rhythmic pattern: onsets and silent rests.
pub struct RhythmPattern(pub Vec<bool>);

/// How many onsets a pattern slice holds.
pub open spec fn count_trues(s: Seq<bool>) -> int
    decreases s.len(),
{
    if s.len() == 0 {
        0
    } else {
        count_trues(s.drop_last()) + if s.last() {
            1int
        } else {
            0int
        }
    }
}

/// The pulses of all groups, in order.
pub open spec fn flat_len(s: Seq<Vec<bool>>) -> int
    decreases s.len(),
{
    if s.len() == 0 {
        0
    } else {
        flat_len(s.drop_last()) + s.last()@.len()
    }
}

/// The onsets of all groups together.
pub open spec fn flat_trues(s: Seq<Vec<bool>>) -> int
    decreases s.len(),
{
    if s.len() == 0 {
        0
    } else {
        flat_trues(s.drop_last()) + count_trues(s.last()@)
    }
}

/// Counting onsets distributes over concatenation.
pub proof fn lemma_count_trues_concat(a: Seq<bool>, b: Seq<bool>)
    ensures
        count_trues(a + b) == count_trues(a) + count_trues(b),
    decreases b.len(),
{
    if b.len() == 0 {
        assert(a + b =~= a);
    } else {
        lemma_count_trues_concat(a, b.drop_last());
        assert((a + b).drop_last() =~= a + b.drop_last());
        assert((a + b).last() == b.last());
    }
}

/// Dropping the last group drops its pulses and onsets; updating a group
/// swaps its pulses and onsets for the new one's.
proof fn lemma_flat_update(s: Seq<Vec<bool>>, i: int, v: Vec<bool>)
    requires
        0 <= i < s.len(),
    ensures
        flat_len(s.update(i, v)) == flat_len(s) - s[i]@.len() + v@.len(),
        flat_trues(s.update(i, v)) == flat_trues(s) - count_trues(s[i]@) + count_trues(v@),
    decreases s.len(),
{
    if i == s.len() - 1 {
        assert(s.update(i, v).drop_last() =~= s.drop_last());
        assert(s.update(i, v).last() == v);
    } else {
        lemma_flat_update(s.drop_last(), i, v);
        assert(s.update(i, v).drop_last() =~= s.drop_last().update(i, v));
        assert(s.update(i, v).last() == s.last());
    }
}

impl RhythmPattern {
    /// A pattern of `n` silent pulses.
    pub fn new(n: usize) -> (r: RhythmPattern)
        ensures
            r.0@.len() == n,
            forall|i: int| 0 <= i < n ==> !r.0@[i],
    {
        let mut pattern: Vec<bool> = Vec::new();
        let mut i: usize = 0;
        while i < n
            invariant
                i <= n,
                pattern@.len() == i,
                forall|k: int| 0 <= k < i ==> !pattern@[k],
            decreases n - i,
        {
            pattern.push(false);
            i += 1;
        }
        RhythmPattern(pattern)
    }

    /// The number of pulses.
    pub fn len(&self) -> (r: usize)
        ensures
            r == self.0@.len(),
    {
        self.0.len()
    }

    /// Rotate the pattern left by `i` pulses: pulse `j` takes the value
    /// of pulse `(j + i) mod len`.
    pub fn rotation(&mut self, i: usize)
        requires
            old(self).0@.len() > 0,
            old(self).0@.len() <= 0x10000000,
        ensures
            final(self).0@.len() == old(self).0@.len(),
            forall|j: int|
                0 <= j < old(self).0@.len() ==> final(self).0@[j] == old(self).0@[(j + i) % (old(
                    self,
                ).0@.len() as int)],
    {
        let n = self.0.len();
        let ghost i0 = i as int;
        let i = i % n;
        let mut rotated: Vec<bool> = Vec::new();
        let mut j: usize = 0;
        while j < n
            invariant
                j <= n,
                n == self.0@.len(),
                n <= 0x10000000,
                i < n,
                rotated@.len() == j,
                forall|t: int|
                    0 <= t < j ==> rotated@[t] == self.0@[(t + i) % (self.0@.len() as int)],
            decreases n - j,
        {
            let idx = (j + i) % n;
            rotated.push(self.0[idx]);
            j += 1;
        }
        proof {
            assert forall|j: int| 0 <= j < old(self).0@.len() implies rotated@[j] == old(
                self,
            ).0@[(j + i0) % (old(self).0@.len() as int)] by {
                vstd::arithmetic::div_mod::lemma_fundamental_div_mod(i0, n as int);
                vstd::arithmetic::div_mod::lemma_mod_multiples_vanish(
                    i0 / (n as int),
                    j + i0 % (n as int),
                    n as int,
                );
            }
        }
        self.0 = rotated;
    }
}

/// The working state of Bjorklund's regrouping: a list of groups, the
/// count of groups `n`, and the count of leading groups `k` that the next
/// fold extends.
pub struct Sequence {
    /// The groups, leading groups first.
    pub sequence: Vec<Vec<bool>>,
    /// How many groups there are.
    pub n: usize,
    /// How many leading groups the next fold extends.
    pub k: usize,
}

impl Sequence {
    /// The group count matches, the fold width stays positive and within
    /// the group count, and the groups keep a bounded total.
    pub open spec fn wf(self) -> bool {
        &&& self.sequence@.len() == self.n
        &&& 1 <= self.k <= self.n
        &&& flat_len(self.sequence@) <= 0x10000
    }

    /// `n` one-pulse groups, the first `k` onsets: the seed of the
    /// regrouping, holding exactly `n` pulses and `k` onsets.
    pub fn new(n: usize, k: usize) -> (r: Sequence)
        requires
            1 <= k <= n,
            n <= 0x10000,
        ensures
            r.wf(),
            r.n == n,
            r.k == k,
            flat_len(r.sequence@) == n,
            flat_trues(r.sequence@) == k,
    {
        let mut sequence: Vec<Vec<bool>> = Vec::new();
        let mut i: usize = 0;
        while i < n
            invariant
                i <= n,
                k <= n,
                sequence@.len() == i,
                flat_len(sequence@) == i,
                flat_trues(sequence@) == if i <= k {
                    i as int
                } else {
                    k as int
                },
            decreases n - i,
        {
            let mut group: Vec<bool> = Vec::new();
            group.push(i < k);
            let ghost g = group@;
            let ghost before = sequence@;
            sequence.push(group);
            proof {
                assert(sequence@.drop_last() =~= before);
                assert(sequence@.last()@ == g);
                assert(g =~= seq![i < k]);
                assert(g.len() == 1);
                assert(g.last() == (i < k));
                assert(g.drop_last() =~= Seq::<bool>::empty());
                assert(count_trues(Seq::<bool>::empty()) == 0);
                assert(count_trues(g) == count_trues(g.drop_last()) + if g.last() {
                    1int
                } else {
                    0int
                });
                assert(count_trues(g) == if i < k {
                    1int
                } else {
                    0int
                });
            }
            i += 1;
        }
        Sequence { sequence, n, k }
    }

    /// Fold the last `to_move` groups into the first `to_move`, newest
    /// last onto the first: group `i` grows by the pulses of group
    /// `n - 1 - i`. Pulses and onsets are preserved; the group count
    /// shrinks by `to_move`, which becomes the new fold width.
    #[verifier::loop_isolation(false)]
    pub fn move_last(&mut self, to_move: usize)
        requires
            old(self).wf(),
            1 <= to_move,
            2 * to_move <= old(self).sequence@.len(),
        ensures
            final(self).wf(),
            final(self).sequence@.len() == old(self).sequence@.len() - to_move,
            final(self).n == old(self).sequence@.len() - to_move,
            final(self).k == to_move,
            flat_len(final(self).sequence@) == flat_len(old(self).sequence@),
            flat_trues(final(self).sequence@) == flat_trues(old(self).sequence@),
            forall|i: int|
                0 <= i < to_move ==> final(self).sequence@[i]@ == old(self).sequence@[i]@ + old(
                    self,
                ).sequence@[old(self).sequence@.len() - 1 - i]@,
            forall|i: int|
                to_move <= i < old(self).sequence@.len() - to_move ==> final(self).sequence@[i]
                    == old(self).sequence@[i],
    {
        let ghost orig = self.sequence@;
        let mut i: usize = 0;
        while i < to_move
            invariant
                i <= to_move,
                self.sequence@.len() == orig.len() - i,
                flat_len(self.sequence@) == flat_len(orig),
                flat_trues(self.sequence@) == flat_trues(orig),
                forall|j: int|
                    0 <= j < i ==> self.sequence@[j]@ == orig[j]@ + orig[orig.len() - 1 - j]@,
                forall|j: int|
                    i <= j < orig.len() - i ==> self.sequence@[j] == orig[j],
                self.n == old(self).n,
                self.k == old(self).k,
            decreases to_move - i,
        {
            let ghost before = self.sequence@;
            let moved = match self.sequence.pop() {
                Some(v) => v,
                None => {
                    proof {
                        assert(false);
                    }
                    Vec::new()
                },
            };
            proof {
                assert(before.drop_last() =~= self.sequence@);
            }
            let mut grown = copy_bools(&self.sequence[i]);
            append_bools(&mut grown, &moved);
            let ghost mid = self.sequence@;
            self.sequence.set(i, grown);
            proof {
                lemma_flat_update(mid, i as int, grown);
                lemma_count_trues_concat(mid[i as int]@, moved@);
                assert(self.sequence@ =~= mid.update(i as int, grown));
                assert(before[orig.len() - 1 - i] == moved);
            }
            i += 1;
        }
        self.n = self.sequence.len();
        self.k = to_move;
    }

    /// One regrouping step. When more than one whole round of folds fits,
    /// fold the full width; when more than one remainder group is left,
    /// fold the remainder; otherwise the regrouping is done and nothing
    /// changes.
    pub fn euclidean_step(&mut self) -> (more: bool)
        requires
            old(self).wf(),
        ensures
            final(self).wf(),
            flat_len(final(self).sequence@) == flat_len(old(self).sequence@),
            flat_trues(final(self).sequence@) == flat_trues(old(self).sequence@),
            more == (old(self).n / old(self).k > 1 || old(self).n % old(self).k > 1),
            more ==> final(self).n < old(self).n,
            !more ==> *final(self) == *old(self),
    {
        let r = self.n % self.k;
        let q = self.n / self.k;
        let to_move = if q > 1 {
            self.k
        } else if r > 1 {
            r
        } else {
            return false;
        };
        proof {
            let nn = self.n as int;
            let kk = self.k as int;
            vstd::arithmetic::div_mod::lemma_fundamental_div_mod(nn, kk);
            vstd::arithmetic::div_mod::lemma_mod_bound(nn, kk);
            assert(2 * to_move <= nn) by (nonlinear_arith)
                requires
                    q == nn / kk,
                    r == nn % kk,
                    nn == kk * (nn / kk) + nn % kk,
                    1 <= kk,
                    kk <= nn,
                    0 <= r,
                    r < kk,
                    to_move == (if q > 1 {
                        kk
                    } else {
                        r as int
                    }),
                    q > 1 || r > 1,
            ;
        }
        self.move_last(to_move);
        true
    }

    /// Run the regrouping to completion and flatten the groups into one
    /// pattern, leading groups first. The pattern holds every pulse and
    /// every onset the seed held.
    pub fn as_pattern(&mut self) -> (r: RhythmPattern)
        requires
            old(self).wf(),
        ensures
            r.0@.len() == flat_len(old(self).sequence@),
            count_trues(r.0@) == flat_trues(old(self).sequence@),
    {
        loop
            invariant
                self.wf(),
                flat_len(self.sequence@) == flat_len(old(self).sequence@),
                flat_trues(self.sequence@) == flat_trues(old(self).sequence@),
            decreases self.n,
        {
            if !self.euclidean_step() {
                break ;
            }
        }
        let mut flat: Vec<bool> = Vec::new();
        let mut i: usize = 0;
        while i < self.sequence.len()
            invariant
                i <= self.sequence@.len(),
                flat@.len() == flat_len(self.sequence@.take(i as int)),
                count_trues(flat@) == flat_trues(self.sequence@.take(i as int)),
                flat_len(self.sequence@) == flat_len(old(self).sequence@),
                flat_trues(self.sequence@) == flat_trues(old(self).sequence@),
                self.wf(),
            decreases self.sequence@.len() - i,
        {
            let ghost before = flat@;
            append_bools(&mut flat, &self.sequence[i]);
            proof {
                lemma_count_trues_concat(before, self.sequence@[i as int]@);
                assert(self.sequence@.take(i + 1).drop_last() =~= self.sequence@.take(i as int));
                assert(self.sequence@.take(i + 1).last() == self.sequence@[i as int]);
                lemma_flat_len_trues_take(self.sequence@, i as int);
            }
            i += 1;
        }
        proof {
            assert(self.sequence@.take(self.sequence@.len() as int) =~= self.sequence@);
        }
        RhythmPattern(flat)
    }
}

/// Pulse and onset totals over a prefix never exceed the whole.
proof fn lemma_flat_len_trues_take(s: Seq<Vec<bool>>, i: int)
    requires
        0 <= i <= s.len(),
    ensures
        flat_len(s.take(i)) <= flat_len(s),
        0 <= flat_len(s.take(i)),
        flat_len(s.take(s.len() as int)) == flat_len(s),
    decreases s.len() - i,
{
    lemma_flat_nonneg(s.take(i));
    if i < s.len() {
        lemma_flat_len_trues_take(s, i + 1);
        assert(s.take(i + 1).drop_last() =~= s.take(i));
        assert(s.take(i + 1).last()@.len() >= 0);
    } else {
        assert(s.take(i) =~= s);
    }
}

/// Totals are never negative.
proof fn lemma_flat_nonneg(s: Seq<Vec<bool>>)
    ensures
        flat_len(s) >= 0,
    decreases s.len(),
{
    if s.len() > 0 {
        lemma_flat_nonneg(s.drop_last());
    }
}

/// A plain element-for-element copy.
fn copy_bools(v: &Vec<bool>) -> (r: Vec<bool>)
    ensures
        r@ == v@,
{
    let mut out: Vec<bool> = Vec::new();
    let mut i: usize = 0;
    while i < v.len()
        invariant
            i <= v@.len(),
            out@ =~= v@.take(i as int),
        decreases v@.len() - i,
    {
        out.push(v[i]);
        i += 1;
    }
    proof {
        assert(v@.take(v@.len() as int) =~= v@);
    }
    out
}

/// Append the elements of `src`.
fn append_bools(dst: &mut Vec<bool>, src: &Vec<bool>)
    ensures
        final(dst)@ == old(dst)@ + src@,
{
    let ghost base = dst@;
    let mut i: usize = 0;
    while i < src.len()
        invariant
            i <= src@.len(),
            dst@ == base + src@.take(i as int),
        decreases src@.len() - i,
    {
        dst.push(src[i]);
        proof {
            assert(dst@ =~= base + src@.take(i + 1));
        }
        i += 1;
    }
    proof {
        assert(base + src@.take(src@.len() as int) =~= base + src@);
    }
}

/// Build one Euclidean rhythm: `k` onsets spread as evenly as possible
/// over `n` pulses.
pub fn euclidean(n: usize, k: usize) -> (r: RhythmPattern)
    requires
        1 <= k <= n,
        n <= 0x10000,
    ensures
        r.0@.len() == n,
        count_trues(r.0@) == k,
{
    let mut sequence = Sequence::new(n, k);
    sequence.as_pattern()
}

/// How rhythmic patterns are generated.
pub enum RhythmAlgorithm {
    Euclidean(EucledeanArgs),
    NPDAG(NPDAGArgs),
    PolyEuclidean(PolyEuclideanArgs),
}

/// Parameters of the Euclidean generator: parallel lists of pulse and
/// onset counts, one pattern per pair.
pub struct EucledeanArgs {
    /// The pulse count of each pattern.
    pub n: Vec<usize>,
    /// The onset count of each pattern.
    pub k: Vec<usize>,
}

/// Parameters of the NP-DAG generator.
pub struct NPDAGArgs {}

/// Parameters of the polyrhythmic Euclidean generator.
pub struct PolyEuclideanArgs {
    /// The pulse count of the system's rhythm.
    pub n: usize,
    /// The onset count of the system's rhythm.
    pub k: usize,
    /// The pulse count of the user's rhythm.
    pub n_in: usize,
    /// The onset count of the user's rhythm.
    pub k_in: usize,
    /// The scaling between the user and the system.
    pub scale: u8,
}

/// Generate the target patterns for a training set. Only the Euclidean
/// generator is implemented; it demands one onset count per pulse count,
/// each at least one and at most its pulse count.
pub fn gendata(algorithm: &RhythmAlgorithm) -> (patterns: Vec<RhythmPattern>)
    requires
        (algorithm matches RhythmAlgorithm::Euclidean(e) && e.n@.len() == e.k@.len() && (forall|
            i: int,
        |
            0 <= i < e.n@.len() ==> 1 <= #[trigger] e.k@[i] <= e.n@[i] && e.n@[i] <= 0x10000)),
    ensures
        ({
            let e = algorithm->Euclidean_0;
            &&& patterns@.len() == e.n@.len()
            &&& forall|i: int|
                0 <= i < patterns@.len() ==> (#[trigger] patterns@[i].0@).len() == e.n@[i]
                    && count_trues(patterns@[i].0@) == e.k@[i]
        }),
{
    match algorithm {
        RhythmAlgorithm::Euclidean(e) => {
            let mut res: Vec<RhythmPattern> = Vec::new();
            let mut i: usize = 0;
            while i < e.n.len()
                invariant
                    i <= e.n@.len(),
                    e.n@.len() == e.k@.len(),
                    forall|j: int|
                        0 <= j < e.n@.len() ==> 1 <= #[trigger] e.k@[j] <= e.n@[j] && e.n@[j]
                            <= 0x10000,
                    res@.len() == i,
                    forall|j: int|
                        0 <= j < i ==> (#[trigger] res@[j].0@).len() == e.n@[j] && count_trues(
                            res@[j].0@,
                        ) == e.k@[j],
                decreases e.n@.len() - i,
            {
                let p = euclidean(e.n[i], e.k[i]);
                res.push(p);
                i += 1;
            }
            res
        },
        RhythmAlgorithm::NPDAG(_) => {
            proof {
                assert(false);
            }
            Vec::new()
        },
        RhythmAlgorithm::PolyEuclidean(_) => {
            proof {
                assert(false);
            }
            Vec::new()
        },
    }
}

} // verus!
