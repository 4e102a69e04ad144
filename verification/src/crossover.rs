use vstd::prelude::*;
use crate::candidate::{Candidate, CandidateFitness, dedup_views};
use crate::population::cf_key;
use crate::rng::random_in_range;
use crate::rule::{Rule, positions_ascend};
use crate::selection::cf_same;

verus! {

/// Why a crossover could not be carried out.
#[derive(Debug, Clone, Copy, PartialEq, Eq, Structural)]
pub enum CrossoverError {
    /// Drawing distinct values used up its budget.
    RngFail,
    /// A non-asexual pairing was asked of a single candidate.
    CantGenerateNonAsexualMatchupWithOneCandidate,
}

/// How selected candidates are paired for mating. The input is assumed
/// sorted ascending by fitness.
#[derive(Debug, Clone, Copy)]
pub enum MatchupStrategy {
    /// Each candidate draws a random partner.
    Random { allow_asexual: bool, allow_duplicates: bool },
    /// Each candidate mates with its immediate fitness successor.
    NextFittest,
    /// The i-th candidate mates with the i-th from the top, the single
    /// fittest sitting out.
    LeastFittest,
}

/// Whether a pair's second split index is replaced by its mirror, the
/// absolute difference between the second parent's rule count and the
/// computed index.
#[derive(Debug, Clone, Copy)]
pub enum MirroringStrategy {
    /// Mirror only when a candidate is paired with itself.
    MirrorIfAsexual,
    AlwaysMirror,
    Never,
}

/// Where each parent's rule sequence is cut.
#[derive(Debug, Clone)]
#[allow(inconsistent_fields)]
pub enum MatingStrategy {
    /// Cut both parents at this index.
    SinglePointAtIndex { split_at: u8 },
    /// Cut each parent at this percentage of its rule count, rounded down.
    SinglePointAtPercentage { split_at: u8 },
    /// Exchange the rules of each (start, end) index range.
    MultiPointAtIndices { split_at: Vec<(u8, u8)> },
    /// Exchange the rules of each (start, end) percentage range.
    MultiPointAtPercentages { split_at: Vec<(u8, u8)> },
}

/// Options common to all mating strategies.
#[derive(Debug, Clone)]
pub struct CrossoverStrategyCommonOptions {
    pub mirroring: MirroringStrategy,
}

impl CrossoverStrategyCommonOptions {
    pub fn new(mirroring: MirroringStrategy) -> (r: Self)
        ensures
            r.mirroring == mirroring,
    {
        Self { mirroring }
    }
}

/// A fully configured crossover: how pairs are formed, where rules are cut,
/// and how the second parent's cut mirrors.
#[derive(Debug, Clone)]
pub struct CrossoverStrategy {
    pub matchup_strategy: MatchupStrategy,
    pub options: CrossoverStrategyCommonOptions,
    pub mating_strategy: MatingStrategy,
}

impl CrossoverStrategy {
    pub fn new(
        matchup_strategy: MatchupStrategy,
        mating_strategy: MatingStrategy,
        options: CrossoverStrategyCommonOptions,
    ) -> (r: Self)
        ensures
            r.matchup_strategy == matchup_strategy,
            r.mating_strategy == mating_strategy,
            r.options == options,
    {
        Self { matchup_strategy, mating_strategy, options }
    }
}

/// The mirror of a split index: the absolute difference between the parent's
/// rule count and the index.
pub open spec fn mirror_point(len: int, x: int) -> int {
    if len >= x {
        len - x
    } else {
        x - len
    }
}

/// A percentage split index: the percentage of the rule count, rounded down.
pub open spec fn percent_index(p: u8, len: int) -> int {
    (p * len) / 100
}

/// Whether this pair's second split index mirrors.
pub open spec fn pair_mirrors(m: MirroringStrategy, a: CandidateFitness, b: CandidateFitness) -> bool {
    match m {
        MirroringStrategy::Never => false,
        MirroringStrategy::AlwaysMirror => true,
        MirroringStrategy::MirrorIfAsexual => cf_same(a, b),
    }
}

/// Both members of the pair carry the data and fitness of candidates drawn
/// from `candidates`.
pub open spec fn pair_drawn_from(
    p: (CandidateFitness, CandidateFitness),
    candidates: Seq<CandidateFitness>,
) -> bool {
    exists|i: int, j: int|
        0 <= i < candidates.len() && 0 <= j < candidates.len() && cf_key(p.0) == cf_key(
            candidates[i],
        ) && cf_key(p.1) == cf_key(candidates[j])
}

/// Every pair in `v` was drawn from `candidates`.
pub open spec fn matchup_pairs_from(
    v: Seq<(CandidateFitness, CandidateFitness)>,
    candidates: Seq<CandidateFitness>,
) -> bool {
    forall|k: int| 0 <= k < v.len() ==> pair_drawn_from(#[trigger] v[k], candidates)
}

/// The pairs of `v` are witnessed by index pairs into `candidates`, no two
/// alike: every pair was formed from its own (left, right) position pair.
pub open spec fn pairs_witnessed(
    v: Seq<(CandidateFitness, CandidateFitness)>,
    candidates: Seq<CandidateFitness>,
    w: Seq<(int, int)>,
) -> bool {
    &&& w.len() == v.len()
    &&& forall|k1: int, k2: int| 0 <= k1 < k2 < w.len() ==> w[k1] != w[k2]
    &&& forall|k: int| 0 <= k < v.len() ==> 0 <= (#[trigger] w[k]).0 < candidates.len()
        && 0 <= w[k].1 < candidates.len()
        && cf_key(v[k].0) == cf_key(candidates[w[k].0])
        && cf_key(v[k].1) == cf_key(candidates[w[k].1])
}

/// Some such witness exists: no two returned pairs come from the same
/// (left, right) index pair.
pub open spec fn distinct_index_pairs(
    v: Seq<(CandidateFitness, CandidateFitness)>,
    candidates: Seq<CandidateFitness>,
) -> bool {
    exists|w: Seq<(int, int)>| pairs_witnessed(v, candidates, w)
}

/// The adjacent children `c1`, `c2` are the two offspring of some pair of
/// candidates drawn from `candidates`.
pub open spec fn offspring_of_pair(
    c1: Candidate,
    c2: Candidate,
    mating: MatingStrategy,
    mirroring: MirroringStrategy,
    candidates: Seq<CandidateFitness>,
) -> bool {
    exists|i: int, j: int|
        0 <= i < candidates.len() && 0 <= j < candidates.len() && c1@ == spec_children(
            mating,
            mirroring,
            candidates[i],
            candidates[j],
        ).0 && c2@ == spec_children(mating, mirroring, candidates[i], candidates[j]).1
}

/// Every adjacent pair of offspring descends from some pair of candidates.
pub open spec fn random_offspring_ok(
    v: Seq<Candidate>,
    mating: MatingStrategy,
    mirroring: MirroringStrategy,
    candidates: Seq<CandidateFitness>,
) -> bool {
    forall|k: int|
        0 <= k < v.len() / 2 ==> offspring_of_pair(
            #[trigger] v[2 * k],
            v[2 * k + 1],
            mating,
            mirroring,
            candidates,
        )
}

/// The rules of `s` with indices in `[from, to)`, both bounds clipped to the
/// sequence's length.
pub open spec fn slice_views(s: Seq<Seq<(usize, char)>>, from: int, to: int) -> Seq<
    Seq<(usize, char)>,
> {
    let lo = if from < s.len() {
        if from < 0 {
            0
        } else {
            from
        }
    } else {
        s.len() as int
    };
    let hi = if to < s.len() {
        if to < lo {
            lo
        } else {
            to
        }
    } else {
        s.len() as int
    };
    if lo <= hi {
        s.subrange(lo, hi)
    } else {
        Seq::empty()
    }
}

/// A single-point child: one parent's rules up to its split index, then the
/// other's from its split index on, duplicates collapsed.
pub open spec fn single_child(
    first: Seq<Seq<(usize, char)>>,
    first_split: int,
    second: Seq<Seq<(usize, char)>>,
    second_split: int,
) -> Seq<Seq<(usize, char)>> {
    dedup_views(slice_views(first, 0, first_split) + slice_views(second, second_split, second.len() as int))
}

/// A segment's bounds on one parent: each endpoint resolved (as an index or
/// a percentage of the rule count), then ordered.
pub open spec fn segment_bounds(seg: (u8, u8), len: int, percentage: bool) -> (int, int) {
    let s0 = if percentage {
        percent_index(seg.0, len)
    } else {
        seg.0 as int
    };
    let e0 = if percentage {
        percent_index(seg.1, len)
    } else {
        seg.1 as int
    };
    if s0 <= e0 {
        (s0, e0)
    } else {
        (e0, s0)
    }
}

/// A segment's bounds on the second parent: resolved the same way, each
/// endpoint mirrored when the pair mirrors, then ordered.
pub open spec fn segment_bounds_b(seg: (u8, u8), len: int, percentage: bool, mirrors: bool) -> (
    int,
    int,
) {
    let (s0, e0) = segment_bounds(seg, len, percentage);
    if mirrors {
        let m1 = mirror_point(len, s0);
        let m2 = mirror_point(len, e0);
        if m1 <= m2 {
            (m1, m2)
        } else {
            (m2, m1)
        }
    } else {
        (s0, e0)
    }
}

/// The rules a multi-point child accumulates, segment by segment, before
/// duplicates collapse: for each segment, the first parent's slice then the
/// second parent's (mirrored-or-not) slice.
pub open spec fn multi_accum(
    segs: Seq<(u8, u8)>,
    av: Seq<Seq<(usize, char)>>,
    bv: Seq<Seq<(usize, char)>>,
    percentage: bool,
    mirrors: bool,
    a_first: bool,
) -> Seq<Seq<(usize, char)>>
    decreases segs.len(),
{
    if segs.len() == 0 {
        Seq::empty()
    } else {
        let seg = segs.last();
        let (a_lo, a_hi) = segment_bounds(seg, av.len() as int, percentage);
        let (b_lo, b_hi) = segment_bounds_b(seg, bv.len() as int, percentage, mirrors);
        let part = if a_first {
            slice_views(av, a_lo, a_hi) + slice_views(bv, b_lo, b_hi)
        } else {
            slice_views(bv, b_lo, b_hi) + slice_views(av, a_lo, a_hi)
        };
        multi_accum(segs.drop_last(), av, bv, percentage, mirrors, a_first) + part
    }
}

/// The two children one mating of the pair (a, b) yields, as rule-view
/// sequences.
pub open spec fn spec_children(
    mating: MatingStrategy,
    mirroring: MirroringStrategy,
    a: CandidateFitness,
    b: CandidateFitness,
) -> (Seq<Seq<(usize, char)>>, Seq<Seq<(usize, char)>>) {
    let av = a.candidate@;
    let bv = b.candidate@;
    let mirrors = pair_mirrors(mirroring, a, b);
    match mating {
        MatingStrategy::SinglePointAtIndex { split_at } => {
            let sa = split_at as int;
            let sb = if mirrors {
                mirror_point(bv.len() as int, split_at as int)
            } else {
                split_at as int
            };
            (single_child(av, sa, bv, sb), single_child(bv, sb, av, sa))
        },
        MatingStrategy::SinglePointAtPercentage { split_at } => {
            let sa = percent_index(split_at, av.len() as int);
            let sb0 = percent_index(split_at, bv.len() as int);
            let sb = if mirrors {
                mirror_point(bv.len() as int, sb0)
            } else {
                sb0
            };
            (single_child(av, sa, bv, sb), single_child(bv, sb, av, sa))
        },
        MatingStrategy::MultiPointAtIndices { split_at } => {
            (
                dedup_views(multi_accum(split_at@, av, bv, false, mirrors, true)),
                dedup_views(multi_accum(split_at@, av, bv, false, mirrors, false)),
            )
        },
        MatingStrategy::MultiPointAtPercentages { split_at } => {
            (
                dedup_views(multi_accum(split_at@, av, bv, true, mirrors, true)),
                dedup_views(multi_accum(split_at@, av, bv, true, mirrors, false)),
            )
        },
    }
}

/// Append the rules of `src` with indices in `[from, to)`, clipped to the
/// rule count, onto `dst`.
fn push_slice(dst: &mut Vec<Rule>, src: &Vec<Rule>, from: usize, to: usize)
    requires
        from <= to,
    ensures
        final(dst)@.map_values(|x: Rule| x@) == old(dst)@.map_values(|x: Rule| x@)
            + slice_views(src@.map_values(|x: Rule| x@), from as int, to as int),
        final(dst)@.len() >= old(dst)@.len(),
        (forall|m: int| 0 <= m < old(dst)@.len()
            ==> positions_ascend((#[trigger] old(dst)@[m])@))
            && (forall|k: int| 0 <= k < src@.len() ==> positions_ascend((#[trigger] src@[k])@))
            ==> (forall|m: int| 0 <= m < final(dst)@.len()
                ==> positions_ascend((#[trigger] final(dst)@[m])@)),
{
    let ghost base = old(dst)@;
    let ghost sv = src@.map_values(|x: Rule| x@);
    let lo = if from < src.len() {
        from
    } else {
        src.len()
    };
    let hi = if to < src.len() {
        to
    } else {
        src.len()
    };
    let ghost want = slice_views(sv, from as int, to as int);
    proof {
        assert(want =~= sv.subrange(lo as int, hi as int));
    }
    let mut k = lo;
    while k < hi
        invariant
            lo <= k <= hi,
            hi <= src@.len(),
            sv == src@.map_values(|x: Rule| x@),
            want == sv.subrange(lo as int, hi as int),
            dst@.len() == base.len() + (k - lo),
            forall|m: int| 0 <= m < base.len() ==> (#[trigger] dst@[m])@ == base[m]@,
            forall|m: int| base.len() <= m < dst@.len()
                ==> (#[trigger] dst@[m])@ == sv[lo + (m - base.len())],
        decreases hi - k,
    {
        dst.push(src[k].clone());
        proof {
            assert(dst@[base.len() + (k - lo)]@ == src@[k as int]@);
            assert(sv[k as int] == src@[k as int]@);
        }
        k += 1;
    }
    proof {
        let dm = dst@.map_values(|x: Rule| x@);
        let bm = base.map_values(|x: Rule| x@);
        assert forall|m: int| #![trigger dm[m]] 0 <= m < dm.len() implies
            dm[m] == (bm + want)[m] by {
            if m < base.len() {
                assert(dst@[m]@ == base[m]@);
            } else {
                assert(dst@[m]@ == sv[lo + (m - base.len())]);
                assert(want[m - base.len()] == sv[lo + (m - base.len())]);
            }
        }
        assert(dst@.map_values(|x: Rule| x@) =~= base.map_values(|x: Rule| x@) + want);
        if (forall|m: int| 0 <= m < base.len() ==> positions_ascend((#[trigger] base[m])@))
            && (forall|k2: int| 0 <= k2 < src@.len() ==> positions_ascend((#[trigger] src@[k2])@)) {
            assert forall|m: int| 0 <= m < dst@.len() implies
                positions_ascend((#[trigger] dst@[m])@) by {
                if m < base.len() {
                    assert(dst@[m]@ == base[m]@);
                    assert(positions_ascend(base[m]@));
                } else {
                    let w = lo + (m - base.len());
                    assert(dst@[m]@ == sv[w]);
                    assert(sv[w] == src@[w]@);
                    assert(positions_ascend(src@[w]@));
                }
            }
        }
    }
}

/// Children are determined by the parents' rule views, bookkeeping and
/// fitness alone, so equal-keyed parents breed equal children.
pub proof fn lemma_children_by_key(
    mating: MatingStrategy,
    mirroring: MirroringStrategy,
    a1: CandidateFitness,
    b1: CandidateFitness,
    a2: CandidateFitness,
    b2: CandidateFitness,
)
    requires
        cf_key(a1) == cf_key(a2),
        cf_key(b1) == cf_key(b2),
    ensures
        spec_children(mating, mirroring, a1, b1) == spec_children(mating, mirroring, a2, b2),
{
    assert(a1.candidate@ == a2.candidate@);
    assert(b1.candidate@ == b2.candidate@);
    assert(a1.fitness == a2.fitness);
    assert(b1.fitness == b2.fitness);
    assert(a1.candidate.rule_set() == a2.candidate.rule_set());
    assert(b1.candidate.rule_set() == b2.candidate.rule_set());
    assert(pair_mirrors(mirroring, a1, b1) == pair_mirrors(mirroring, a2, b2));
}

/// Resolve one segment endpoint pair on a parent with `len` rules, ordered.
fn resolve_bounds(seg: (u8, u8), len: usize, percentage: bool) -> (r: (u128, u128))
    ensures
        r.0 as int == segment_bounds(seg, len as int, percentage).0,
        r.1 as int == segment_bounds(seg, len as int, percentage).1,
        r.0 <= r.1,
{
    let s0: u128 = if percentage {
        proof {
            assert((seg.0 as u128) * (len as u128) <= 255 * 0xFFFF_FFFF_FFFF_FFFFu128)
                by (nonlinear_arith)
                requires
                    seg.0 <= 255,
                    len as u128 <= 0xFFFF_FFFF_FFFF_FFFFu128,
            ;
            assert((seg.0 as u128) * (len as u128) == (seg.0 * len) as u128) by (nonlinear_arith)
                requires
                    seg.0 <= 255,
                    len as u128 <= 0xFFFF_FFFF_FFFF_FFFFu128,
            ;
        }
        (seg.0 as u128) * (len as u128) / 100
    } else {
        seg.0 as u128
    };
    let e0: u128 = if percentage {
        proof {
            assert((seg.1 as u128) * (len as u128) <= 255 * 0xFFFF_FFFF_FFFF_FFFFu128)
                by (nonlinear_arith)
                requires
                    seg.1 <= 255,
                    len as u128 <= 0xFFFF_FFFF_FFFF_FFFFu128,
            ;
            assert((seg.1 as u128) * (len as u128) == (seg.1 * len) as u128) by (nonlinear_arith)
                requires
                    seg.1 <= 255,
                    len as u128 <= 0xFFFF_FFFF_FFFF_FFFFu128,
            ;
        }
        (seg.1 as u128) * (len as u128) / 100
    } else {
        seg.1 as u128
    };
    if s0 <= e0 {
        (s0, e0)
    } else {
        (e0, s0)
    }
}

/// Mirror an ordered endpoint pair over a parent with `len` rules, ordered.
fn mirror_bounds(b0: (u128, u128), len: usize) -> (r: (u128, u128))
    ensures
        ({
            let m1 = mirror_point(len as int, b0.0 as int);
            let m2 = mirror_point(len as int, b0.1 as int);
            if m1 <= m2 {
                r.0 as int == m1 && r.1 as int == m2
            } else {
                r.0 as int == m2 && r.1 as int == m1
            }
        }),
        r.0 <= r.1,
{
    let l = len as u128;
    let m1 = if l >= b0.0 {
        l - b0.0
    } else {
        b0.0 - l
    };
    let m2 = if l >= b0.1 {
        l - b0.1
    } else {
        b0.1 - l
    };
    if m1 <= m2 {
        (m1, m2)
    } else {
        (m2, m1)
    }
}

/// Clip an index to the rule count, for slicing.
fn clamp_index(x: u128, len: usize) -> (r: usize)
    ensures
        r as int == (if x as int > len as int { len as int } else { x as int }),
        r <= len,
{
    if x > len as u128 {
        len
    } else {
        x as usize
    }
}

impl CrossoverStrategy {
    /// Breed one pair: two children, one per concatenation order, each a
    /// deduplicated rule set with fresh bookkeeping.
    pub fn mate_pair(&self, a: &CandidateFitness, b: &CandidateFitness) -> (r: (Candidate, Candidate))
        ensures
            r.0@ == spec_children(self.mating_strategy, self.options.mirroring, *a, *b).0,
            r.1@ == spec_children(self.mating_strategy, self.options.mirroring, *a, *b).1,
            a.candidate.wf() && b.candidate.wf() ==> r.0.wf() && r.1.wf(),
            r.0.spec_birth_generation_id() is None && r.0.spec_mutation_count() == 0,
            r.1.spec_birth_generation_id() is None && r.1.spec_mutation_count() == 0,
    {
        let ghost av = a.candidate@;
        let ghost bv = b.candidate@;
        let mirrors = match self.options.mirroring {
            MirroringStrategy::Never => false,
            MirroringStrategy::AlwaysMirror => true,
            MirroringStrategy::MirrorIfAsexual => a == b,
        };
        proof {
            assert(mirrors == pair_mirrors(self.options.mirroring, *a, *b));
        }
        let arules = a.candidate.rules();
        let brules = b.candidate.rules();
        let alen = arules.len();
        let blen = brules.len();
        proof {
            assert(alen == av.len());
            assert(blen == bv.len());
        }
        match &self.mating_strategy {
            MatingStrategy::SinglePointAtIndex { split_at } => {
                let sa: u128 = *split_at as u128;
                let sb: u128 = if mirrors {
                    if blen as u128 >= sa {
                        blen as u128 - sa
                    } else {
                        sa - blen as u128
                    }
                } else {
                    sa
                };
                self.build_single(arules, brules, sa, sb, Ghost(av), Ghost(bv))
            },
            MatingStrategy::SinglePointAtPercentage { split_at } => {
                let (sa, _) = resolve_bounds((*split_at, *split_at), alen, true);
                let (sb0, _) = resolve_bounds((*split_at, *split_at), blen, true);
                let sb: u128 = if mirrors {
                    if blen as u128 >= sb0 {
                        blen as u128 - sb0
                    } else {
                        sb0 - blen as u128
                    }
                } else {
                    sb0
                };
                proof {
                    assert(sa as int == percent_index(*split_at, av.len() as int));
                    assert(sb0 as int == percent_index(*split_at, bv.len() as int));
                }
                self.build_single(arules, brules, sa, sb, Ghost(av), Ghost(bv))
            },
            MatingStrategy::MultiPointAtIndices { split_at } => {
                self.build_multi(arules, brules, split_at, false, mirrors, Ghost(av), Ghost(bv))
            },
            MatingStrategy::MultiPointAtPercentages { split_at } => {
                self.build_multi(arules, brules, split_at, true, mirrors, Ghost(av), Ghost(bv))
            },
        }
    }

    /// Assemble both single-point children for already resolved split
    /// indices.
    fn build_single(
        &self,
        arules: &Vec<Rule>,
        brules: &Vec<Rule>,
        sa: u128,
        sb: u128,
        Ghost(av): Ghost<Seq<Seq<(usize, char)>>>,
        Ghost(bv): Ghost<Seq<Seq<(usize, char)>>>,
    ) -> (r: (Candidate, Candidate))
        requires
            av == arules@.map_values(|x: Rule| x@),
            bv == brules@.map_values(|x: Rule| x@),
        ensures
            r.0@ == single_child(av, sa as int, bv, sb as int),
            r.1@ == single_child(bv, sb as int, av, sa as int),
            (forall|i: int| 0 <= i < av.len() ==> positions_ascend(#[trigger] av[i]))
                && (forall|i: int| 0 <= i < bv.len() ==> positions_ascend(#[trigger] bv[i]))
                ==> r.0.wf() && r.1.wf(),
            r.0.spec_birth_generation_id() is None && r.0.spec_mutation_count() == 0,
            r.1.spec_birth_generation_id() is None && r.1.spec_mutation_count() == 0,
    {
        let alen = arules.len();
        let blen = brules.len();
        let sa_c = clamp_index(sa, alen);
        let sb_c = clamp_index(sb, blen);
        let mut v1: Vec<Rule> = Vec::new();
        push_slice(&mut v1, arules, 0, sa_c);
        push_slice(&mut v1, brules, sb_c, blen);
        let mut v2: Vec<Rule> = Vec::new();
        push_slice(&mut v2, brules, 0, sb_c);
        push_slice(&mut v2, arules, sa_c, alen);
        proof {
            assert(slice_views(av, 0, sa_c as int) =~= slice_views(av, 0, sa as int));
            assert(slice_views(bv, sb_c as int, blen as int) =~= slice_views(bv, sb as int, bv.len() as int));
            assert(slice_views(bv, 0, sb_c as int) =~= slice_views(bv, 0, sb as int));
            assert(slice_views(av, sa_c as int, alen as int) =~= slice_views(av, sa as int, av.len() as int));
            assert(Seq::<Seq<(usize, char)>>::empty() + slice_views(av, 0, sa as int)
                =~= slice_views(av, 0, sa as int));
            assert(Seq::<Seq<(usize, char)>>::empty() + slice_views(bv, 0, sb as int)
                =~= slice_views(bv, 0, sb as int));
            assert(v1@.map_values(|x: Rule| x@)
                =~= slice_views(av, 0, sa as int) + slice_views(bv, sb as int, bv.len() as int));
            assert(v2@.map_values(|x: Rule| x@)
                =~= slice_views(bv, 0, sb as int) + slice_views(av, sa as int, av.len() as int));
        }
        let c1 = Candidate::from_rules(&v1);
        let c2 = Candidate::from_rules(&v2);
        proof {
            if (forall|i: int| 0 <= i < av.len() ==> positions_ascend(#[trigger] av[i]))
                && (forall|i: int| 0 <= i < bv.len() ==> positions_ascend(#[trigger] bv[i])) {
                assert forall|i: int| 0 <= i < arules@.len() implies
                    positions_ascend((#[trigger] arules@[i])@) by {
                    assert(av[i] == arules@[i]@);
                }
                assert forall|i: int| 0 <= i < brules@.len() implies
                    positions_ascend((#[trigger] brules@[i])@) by {
                    assert(bv[i] == brules@[i]@);
                }
                assert forall|i: int| 0 <= i < v1@.len() implies (#[trigger] v1@[i]).wf() by {}
                assert forall|i: int| 0 <= i < v2@.len() implies (#[trigger] v2@[i]).wf() by {}
            }
        }
        (c1, c2)
    }

    /// Assemble both multi-point children, accumulating each segment's
    /// slices from both parents.
    #[verifier::rlimit(100)]
    fn build_multi(
        &self,
        arules: &Vec<Rule>,
        brules: &Vec<Rule>,
        segs: &Vec<(u8, u8)>,
        percentage: bool,
        mirrors: bool,
        Ghost(av): Ghost<Seq<Seq<(usize, char)>>>,
        Ghost(bv): Ghost<Seq<Seq<(usize, char)>>>,
    ) -> (r: (Candidate, Candidate))
        requires
            av == arules@.map_values(|x: Rule| x@),
            bv == brules@.map_values(|x: Rule| x@),
        ensures
            r.0@ == dedup_views(multi_accum(segs@, av, bv, percentage, mirrors, true)),
            r.1@ == dedup_views(multi_accum(segs@, av, bv, percentage, mirrors, false)),
            (forall|i: int| 0 <= i < av.len() ==> positions_ascend(#[trigger] av[i]))
                && (forall|i: int| 0 <= i < bv.len() ==> positions_ascend(#[trigger] bv[i]))
                ==> r.0.wf() && r.1.wf(),
            r.0.spec_birth_generation_id() is None && r.0.spec_mutation_count() == 0,
            r.1.spec_birth_generation_id() is None && r.1.spec_mutation_count() == 0,
    {
        let alen = arules.len();
        let blen = brules.len();
        let mut v1: Vec<Rule> = Vec::new();
        let mut v2: Vec<Rule> = Vec::new();
        let ghost rule_wf = (forall|i: int| 0 <= i < av.len() ==> positions_ascend(#[trigger] av[i]))
            && (forall|i: int| 0 <= i < bv.len() ==> positions_ascend(#[trigger] bv[i]));
        proof {
            if rule_wf {
                assert forall|i: int| 0 <= i < arules@.len() implies
                    positions_ascend((#[trigger] arules@[i])@) by {
                    assert(av[i] == arules@[i]@);
                }
                assert forall|i: int| 0 <= i < brules@.len() implies
                    positions_ascend((#[trigger] brules@[i])@) by {
                    assert(bv[i] == brules@[i]@);
                }
            }
            assert(multi_accum(segs@.take(0), av, bv, percentage, mirrors, true)
                =~= Seq::<Seq<(usize, char)>>::empty()) by {
                assert(segs@.take(0).len() == 0);
            }
            assert(multi_accum(segs@.take(0), av, bv, percentage, mirrors, false)
                =~= Seq::<Seq<(usize, char)>>::empty()) by {
                assert(segs@.take(0).len() == 0);
            }
        }
        let mut g: usize = 0;
        while g < segs.len()
            invariant
                g <= segs@.len(),
                alen == av.len(),
                blen == bv.len(),
                av == arules@.map_values(|x: Rule| x@),
                bv == brules@.map_values(|x: Rule| x@),
                v1@.map_values(|x: Rule| x@)
                    == multi_accum(segs@.take(g as int), av, bv, percentage, mirrors, true),
                v2@.map_values(|x: Rule| x@)
                    == multi_accum(segs@.take(g as int), av, bv, percentage, mirrors, false),
                rule_wf ==> (forall|i: int| 0 <= i < v1@.len()
                    ==> positions_ascend((#[trigger] v1@[i])@)),
                rule_wf ==> (forall|i: int| 0 <= i < v2@.len()
                    ==> positions_ascend((#[trigger] v2@[i])@)),
                rule_wf == ((forall|i: int| 0 <= i < av.len() ==> positions_ascend(#[trigger] av[i]))
                    && (forall|i: int| 0 <= i < bv.len() ==> positions_ascend(#[trigger] bv[i]))),
                rule_wf ==> (forall|i: int| 0 <= i < arules@.len()
                    ==> positions_ascend((#[trigger] arules@[i])@)),
                rule_wf ==> (forall|i: int| 0 <= i < brules@.len()
                    ==> positions_ascend((#[trigger] brules@[i])@)),
            decreases segs@.len() - g,
        {
            let seg = segs[g];
            let ab = resolve_bounds(seg, alen, percentage);
            let bb0 = resolve_bounds(seg, blen, percentage);
            let bb = if mirrors {
                mirror_bounds(bb0, blen)
            } else {
                bb0
            };
            let a_lo = clamp_index(ab.0, alen);
            let a_hi = clamp_index(ab.1, alen);
            let b_lo = clamp_index(bb.0, blen);
            let b_hi = clamp_index(bb.1, blen);
            let ghost pre1 = v1@.map_values(|x: Rule| x@);
            let ghost pre2 = v2@.map_values(|x: Rule| x@);
            let ghost sa_spec = segment_bounds(seg, av.len() as int, percentage);
            let ghost sb_spec = segment_bounds_b(seg, bv.len() as int, percentage, mirrors);
            proof {
                assert(ab.0 as int == sa_spec.0 && ab.1 as int == sa_spec.1);
                assert(bb.0 as int == sb_spec.0 && bb.1 as int == sb_spec.1);
                assert(slice_views(av, a_lo as int, a_hi as int) =~= slice_views(av, sa_spec.0, sa_spec.1));
                assert(slice_views(bv, b_lo as int, b_hi as int) =~= slice_views(bv, sb_spec.0, sb_spec.1));
            }
            push_slice(&mut v1, arules, a_lo, a_hi);
            push_slice(&mut v1, brules, b_lo, b_hi);
            push_slice(&mut v2, brules, b_lo, b_hi);
            push_slice(&mut v2, arules, a_lo, a_hi);
            proof {
                let part1 = slice_views(av, sa_spec.0, sa_spec.1) + slice_views(bv, sb_spec.0, sb_spec.1);
                let part2 = slice_views(bv, sb_spec.0, sb_spec.1) + slice_views(av, sa_spec.0, sa_spec.1);
                assert(v1@.map_values(|x: Rule| x@) =~= pre1 + part1);
                assert(v2@.map_values(|x: Rule| x@) =~= pre2 + part2);
                assert(segs@.take(g + 1).drop_last() =~= segs@.take(g as int));
                assert(segs@.take(g + 1).last() == segs@[g as int]);
                assert(multi_accum(segs@.take(g + 1), av, bv, percentage, mirrors, true)
                    == multi_accum(segs@.take(g as int), av, bv, percentage, mirrors, true) + part1);
                assert(multi_accum(segs@.take(g + 1), av, bv, percentage, mirrors, false)
                    == multi_accum(segs@.take(g as int), av, bv, percentage, mirrors, false) + part2);
            }
            g += 1;
        }
        proof {
            assert(segs@.take(segs@.len() as int) =~= segs@);
        }
        let c1 = Candidate::from_rules(&v1);
        let c2 = Candidate::from_rules(&v2);
        proof {
            if rule_wf {
                assert forall|i: int| 0 <= i < v1@.len() implies (#[trigger] v1@[i]).wf() by {}
                assert forall|i: int| 0 <= i < v2@.len() implies (#[trigger] v2@[i]).wf() by {}
            }
        }
        (c1, c2)
    }
}

/// Whether this index pair was already produced.
fn pairs_contain(v: &Vec<(usize, usize)>, x: (usize, usize)) -> (r: bool)
    ensures
        r == v@.contains(x),
{
    let mut k: usize = 0;
    while k < v.len()
        invariant
            k <= v@.len(),
            forall|m: int| 0 <= m < k ==> v@[m] != x,
        decreases v@.len() - k,
    {
        if v[k].0 == x.0 && v[k].1 == x.1 {
            proof {
                assert(v@[k as int] == x);
            }
            return true;
        }
        k += 1;
    }
    proof {
        if v@.contains(x) {
            let m = choose|m: int| 0 <= m < v@.len() && v@[m] == x;
            assert(v@[m] != x);
        }
    }
    false
}

impl CrossoverStrategy {
    /// Pair the selected candidates for mating, assuming they arrive sorted
    /// ascending by fitness. LeastFittest pairs each candidate with its
    /// mirror from the top; NextFittest with its successor; Random draws a
    /// partner for each candidate, stepping off itself when asexual pairing
    /// is disallowed and probing past duplicates when those are disallowed.
    #[verifier::rlimit(100)]
    pub fn matchup(&self, candidates: &Vec<CandidateFitness>) -> (r: Result<
        Vec<(CandidateFitness, CandidateFitness)>,
        CrossoverError,
    >)
        requires
            candidates@.len() >= 1,
        ensures
            match self.matchup_strategy {
                MatchupStrategy::LeastFittest => r matches Ok(v) && v@.len() == candidates@.len()
                    - 1 && forall|i: int|
                    0 <= i < v@.len() ==> cf_key((#[trigger] v@[i]).0) == cf_key(candidates@[i])
                        && cf_key(v@[i].1) == cf_key(candidates@[candidates@.len() - 1 - i]),
                MatchupStrategy::NextFittest => r matches Ok(v) && v@.len() == candidates@.len()
                    - 1 && forall|i: int|
                    0 <= i < v@.len() ==> cf_key((#[trigger] v@[i]).0) == cf_key(candidates@[i])
                        && cf_key(v@[i].1) == cf_key(candidates@[i + 1]),
                MatchupStrategy::Random { allow_asexual, allow_duplicates } => {
                    &&& (r is Err <==> !allow_asexual && candidates@.len() == 1)
                    &&& (r is Err ==> r == Err::<Vec<(CandidateFitness, CandidateFitness)>, _>(
                        CrossoverError::CantGenerateNonAsexualMatchupWithOneCandidate,
                    ))
                    &&& (r matches Ok(v) ==> v@.len() == candidates@.len()
                        && matchup_pairs_from(v@, candidates@)
                        && distinct_index_pairs(v@, candidates@))
                },
            },
    {
        let len = candidates.len();
        match &self.matchup_strategy {
            MatchupStrategy::LeastFittest => {
                let mut v: Vec<(CandidateFitness, CandidateFitness)> = Vec::new();
                let mut i: usize = 0;
                while i < len - 1
                    invariant
                        len == candidates@.len(),
                        len >= 1,
                        i <= len - 1,
                        v@.len() == i,
                        forall|m: int| 0 <= m < i
                            ==> cf_key((#[trigger] v@[m]).0) == cf_key(candidates@[m])
                                && cf_key(v@[m].1) == cf_key(candidates@[candidates@.len() - 1 - m]),
                    decreases len - 1 - i,
                {
                    let first = candidates[i].clone();
                    let second = candidates[len - 1 - i].clone();
                    proof {
                        assert(cf_key(first) == cf_key(candidates@[i as int]));
                        assert(cf_key(second) == cf_key(candidates@[candidates@.len() - 1 - i]));
                    }
                    v.push((first, second));
                    proof {
                        assert(v@[i as int].0 == first && v@[i as int].1 == second);
                    }
                    i += 1;
                }
                proof {
                    assert(v@.len() == candidates@.len() - 1);
                }
                return Ok(v);
            },
            MatchupStrategy::NextFittest => {
                let mut v: Vec<(CandidateFitness, CandidateFitness)> = Vec::new();
                let mut i: usize = 0;
                while i < len - 1
                    invariant
                        len == candidates@.len(),
                        len >= 1,
                        i <= len - 1,
                        v@.len() == i,
                        forall|m: int| 0 <= m < i
                            ==> cf_key((#[trigger] v@[m]).0) == cf_key(candidates@[m])
                                && cf_key(v@[m].1) == cf_key(candidates@[m + 1]),
                    decreases len - 1 - i,
                {
                    let first = candidates[i].clone();
                    let second = candidates[i + 1].clone();
                    proof {
                        assert(cf_key(first) == cf_key(candidates@[i as int]));
                        assert(cf_key(second) == cf_key(candidates@[i + 1]));
                    }
                    v.push((first, second));
                    proof {
                        assert(v@[i as int].0 == first && v@[i as int].1 == second);
                    }
                    i += 1;
                }
                proof {
                    assert(v@.len() == candidates@.len() - 1);
                }
                return Ok(v);
            },
            MatchupStrategy::Random { allow_asexual, allow_duplicates } => {
                let allow_asexual = *allow_asexual;
                let allow_duplicates = *allow_duplicates;
                if len == 1 && !allow_asexual {
                    return Err(CrossoverError::CantGenerateNonAsexualMatchupWithOneCandidate);
                }
                let mut matchups: Vec<(usize, usize)> = Vec::new();
                let mut candidate_index: usize = 0;
                while candidate_index < len
                    invariant
                        len == candidates@.len(),
                        len >= 1,
                        candidate_index <= len,
                        matchups@.len() == candidate_index,
                        forall|m: int| 0 <= m < matchups@.len()
                            ==> (#[trigger] matchups@[m]).0 == m && matchups@[m].1 < len,
                    decreases len - candidate_index,
                {
                    let mut partner = random_in_range(0, len);
                    if !allow_asexual && partner == candidate_index {
                        partner = (partner + 1) % len;
                    }
                    let mut abandoned = false;
                    if !allow_duplicates {
                        let mut checks: usize = 0;
                        let mut dup = pairs_contain(&matchups, (candidate_index, partner));
                        proof {
                            // Every recorded pair carries an earlier left
                            // index, so the freshly indexed pair is never a
                            // duplicate and probing never abandons an index.
                            assert(!dup) by {
                                if matchups@.contains((candidate_index, partner)) {
                                    let m = choose|m: int|
                                        0 <= m < matchups@.len() && matchups@[m] == (
                                        candidate_index,
                                        partner,
                                        );
                                    assert(matchups@[m].0 == m);
                                }
                            }
                        }
                        while dup && !abandoned
                            invariant
                                len == candidates@.len(),
                                len >= 1,
                                partner < len,
                                checks <= len,
                                !dup,
                                !abandoned,
                            decreases (if abandoned { 0int } else { len + 1 - checks }),
                        {
                            partner = (partner + 1) % len;
                            if checks >= len {
                                abandoned = true;
                            } else {
                                checks += 1;
                                dup = pairs_contain(&matchups, (candidate_index, partner));
                            }
                        }
                    }
                    if !abandoned {
                        matchups.push((candidate_index, partner));
                        proof {
                            assert(matchups@[candidate_index as int]
                                == (candidate_index, partner));
                        }
                    }
                    candidate_index += 1;
                }
                let mut v: Vec<(CandidateFitness, CandidateFitness)> = Vec::new();
                let ghost mut wit: Seq<(int, int)> = Seq::empty();
                let mut k: usize = 0;
                while k < matchups.len()
                    invariant
                        len == candidates@.len(),
                        matchups@.len() <= len,
                        k <= matchups@.len(),
                        v@.len() == k,
                        wit.len() == k,
                        forall|m: int| 0 <= m < matchups@.len()
                            ==> (#[trigger] matchups@[m]).0 == m && matchups@[m].1 < len,
                        forall|m: int| 0 <= m < k ==> (#[trigger] wit[m]).0 == m,
                        forall|m: int| 0 <= m < k ==> 0 <= (#[trigger] wit[m]).0 < candidates@.len()
                            && 0 <= wit[m].1 < candidates@.len()
                            && cf_key(v@[m].0) == cf_key(candidates@[wit[m].0])
                            && cf_key(v@[m].1) == cf_key(candidates@[wit[m].1]),
                    decreases matchups@.len() - k,
                {
                    let (a_idx, b_idx) = matchups[k];
                    let first = candidates[a_idx].clone();
                    let second = candidates[b_idx].clone();
                    let ghost gf = first;
                    let ghost gs = second;
                    let ghost pre = v@;
                    proof {
                        assert(cf_key(gf) == cf_key(candidates@[a_idx as int]));
                        assert(cf_key(gs) == cf_key(candidates@[b_idx as int]));
                    }
                    v.push((first, second));
                    proof {
                        wit = wit.push((a_idx as int, b_idx as int));
                        assert forall|x: int| 0 <= x < pre.len() implies v@[x] == pre[x] by {}
                        assert(v@[k as int].0 == gf && v@[k as int].1 == gs);
                        assert(wit[k as int] == (a_idx as int, b_idx as int));
                    }
                    k += 1;
                }
                proof {
                    assert forall|k2: int| 0 <= k2 < v@.len() implies
                        pair_drawn_from(#[trigger] v@[k2], candidates@) by {
                        let i0 = wit[k2].0;
                        let j0 = wit[k2].1;
                        assert(0 <= i0 < candidates@.len() && 0 <= j0 < candidates@.len()
                            && cf_key(v@[k2].0) == cf_key(candidates@[i0])
                            && cf_key(v@[k2].1) == cf_key(candidates@[j0]));
                    }
                    assert(matchup_pairs_from(v@, candidates@));
                    assert(pairs_witnessed(v@, candidates@, wit)) by {
                        assert forall|k1: int, k2: int| 0 <= k1 < k2 < wit.len() implies
                            wit[k1] != wit[k2] by {
                            assert(wit[k1].0 == k1 && wit[k2].0 == k2);
                        }
                    }
                    assert(distinct_index_pairs(v@, candidates@));
                }
                return Ok(v);
            },
        }
    }

    /// Breed every pair in order: two children per pair, the first-parent
    /// concatenation then the complementary one.
    pub fn mate_pairs(&self, pairs: &Vec<(CandidateFitness, CandidateFitness)>) -> (r: Vec<Candidate>)
        requires
            forall|i: int| 0 <= i < pairs@.len() ==> (#[trigger] pairs@[i]).0.candidate.wf()
                && pairs@[i].1.candidate.wf(),
        ensures
            r@.len() == 2 * pairs@.len(),
            forall|k: int| 0 <= k < r@.len() ==> (#[trigger] r@[k])@ == (if k % 2 == 0 {
                spec_children(
                    self.mating_strategy,
                    self.options.mirroring,
                    pairs@[k / 2].0,
                    pairs@[k / 2].1,
                ).0
            } else {
                spec_children(
                    self.mating_strategy,
                    self.options.mirroring,
                    pairs@[k / 2].0,
                    pairs@[k / 2].1,
                ).1
            }),
            forall|k: int| 0 <= k < r@.len() ==> (#[trigger] r@[k]).wf()
                && r@[k].spec_birth_generation_id() is None && r@[k].spec_mutation_count() == 0,
    {
        let mut results: Vec<Candidate> = Vec::new();
        let mut i: usize = 0;
        while i < pairs.len()
            invariant
                i <= pairs@.len(),
                results@.len() == 2 * i,
                forall|m: int| 0 <= m < pairs@.len() ==> (#[trigger] pairs@[m]).0.candidate.wf()
                    && pairs@[m].1.candidate.wf(),
                forall|k: int| 0 <= k < results@.len() ==> (#[trigger] results@[k])@
                    == (if k % 2 == 0 {
                    spec_children(
                        self.mating_strategy,
                        self.options.mirroring,
                        pairs@[k / 2].0,
                        pairs@[k / 2].1,
                    ).0
                } else {
                    spec_children(
                        self.mating_strategy,
                        self.options.mirroring,
                        pairs@[k / 2].0,
                        pairs@[k / 2].1,
                    ).1
                }),
                forall|k: int| 0 <= k < results@.len() ==> (#[trigger] results@[k]).wf()
                    && results@[k].spec_birth_generation_id() is None
                    && results@[k].spec_mutation_count() == 0,
            decreases pairs@.len() - i,
        {
            let pair = &pairs[i];
            let (c1, c2) = self.mate_pair(&pair.0, &pair.1);
            let ghost gc1 = c1;
            let ghost gc2 = c2;
            let ghost pre = results@;
            proof {
                assert(pair.0 == pairs@[i as int].0);
                assert(pair.1 == pairs@[i as int].1);
            }
            results.push(c1);
            results.push(c2);
            proof {
                assert(results@.len() == pre.len() + 2);
                assert forall|x: int| 0 <= x < pre.len() implies results@[x] == pre[x] by {}
                assert(results@[pre.len() as int] == gc1);
                assert(results@[pre.len() as int + 1] == gc2);
                assert(pre.len() == 2 * (i as int));
                assert forall|k: int| 0 <= k < results@.len() implies
                    (#[trigger] results@[k])@ == (if k % 2 == 0 {
                        spec_children(
                            self.mating_strategy,
                            self.options.mirroring,
                            pairs@[k / 2].0,
                            pairs@[k / 2].1,
                        ).0
                    } else {
                        spec_children(
                            self.mating_strategy,
                            self.options.mirroring,
                            pairs@[k / 2].0,
                            pairs@[k / 2].1,
                        ).1
                    }) by {
                    if k < pre.len() {
                        assert(results@[k] == pre[k]);
                    } else if k == pre.len() {
                        assert(results@[k] == gc1);
                        assert(k % 2 == 0 && k / 2 == i);
                    } else {
                        assert(results@[k] == gc2);
                        assert(k % 2 == 1 && k / 2 == i);
                    }
                }
            }
            i += 1;
        }
        results
    }

    /// One full crossover: form the matchups, then breed each pair into two
    /// offspring, in matchup order.
    #[verifier::rlimit(100)]
    pub fn crossover(&self, candidates: &Vec<CandidateFitness>) -> (r: Result<
        Vec<Candidate>,
        CrossoverError,
    >)
        requires
            candidates@.len() >= 1,
            forall|i: int| 0 <= i < candidates@.len()
                ==> (#[trigger] candidates@[i]).candidate.wf(),
        ensures
            r is Err <==> (self.matchup_strategy matches MatchupStrategy::Random {
                allow_asexual: false,
                ..
            } && candidates@.len() == 1),
            r is Err ==> r == Err::<Vec<Candidate>, _>(
                CrossoverError::CantGenerateNonAsexualMatchupWithOneCandidate,
            ),
            r matches Ok(v) ==> ({
                &&& forall|k: int| 0 <= k < v@.len() ==> (#[trigger] v@[k]).wf()
                    && v@[k].spec_birth_generation_id() is None
                    && v@[k].spec_mutation_count() == 0
                &&& match self.matchup_strategy {
                    MatchupStrategy::LeastFittest => v@.len() == 2 * (candidates@.len() - 1)
                        && forall|i: int| 0 <= i < candidates@.len() - 1
                            ==> (#[trigger] v@[2 * i])@ == spec_children(
                                self.mating_strategy,
                                self.options.mirroring,
                                candidates@[i],
                                candidates@[candidates@.len() - 1 - i],
                            ).0 && v@[2 * i + 1]@ == spec_children(
                                self.mating_strategy,
                                self.options.mirroring,
                                candidates@[i],
                                candidates@[candidates@.len() - 1 - i],
                            ).1,
                    MatchupStrategy::NextFittest => v@.len() == 2 * (candidates@.len() - 1)
                        && forall|i: int| 0 <= i < candidates@.len() - 1
                            ==> (#[trigger] v@[2 * i])@ == spec_children(
                                self.mating_strategy,
                                self.options.mirroring,
                                candidates@[i],
                                candidates@[i + 1],
                            ).0 && v@[2 * i + 1]@ == spec_children(
                                self.mating_strategy,
                                self.options.mirroring,
                                candidates@[i],
                                candidates@[i + 1],
                            ).1,
                    MatchupStrategy::Random { .. } => v@.len() == 2 * candidates@.len()
                        && random_offspring_ok(
                        v@,
                        self.mating_strategy,
                        self.options.mirroring,
                        candidates@,
                    ),
                }
            }),
    {
        let pairs = match self.matchup(candidates) {
            Ok(pairs) => pairs,
            Err(e) => {
                return Err(e);
            },
        };
        proof {
            assert forall|i: int| 0 <= i < pairs@.len() implies
                (#[trigger] pairs@[i]).0.candidate.wf() && pairs@[i].1.candidate.wf() by {
                match self.matchup_strategy {
                    MatchupStrategy::LeastFittest => {
                        assert(cf_key(pairs@[i].0) == cf_key(candidates@[i]));
                        assert(candidates@[i].candidate.wf());
                        assert(pairs@[i].0.candidate@ == candidates@[i].candidate@);
                        assert(cf_key(pairs@[i].1)
                            == cf_key(candidates@[candidates@.len() - 1 - i]));
                        assert(candidates@[candidates@.len() - 1 - i].candidate.wf());
                        assert(pairs@[i].1.candidate@
                            == candidates@[candidates@.len() - 1 - i].candidate@);
                    },
                    MatchupStrategy::NextFittest => {
                        assert(cf_key(pairs@[i].0) == cf_key(candidates@[i]));
                        assert(candidates@[i].candidate.wf());
                        assert(pairs@[i].0.candidate@ == candidates@[i].candidate@);
                        assert(cf_key(pairs@[i].1) == cf_key(candidates@[i + 1]));
                        assert(candidates@[i + 1].candidate.wf());
                        assert(pairs@[i].1.candidate@ == candidates@[i + 1].candidate@);
                    },
                    MatchupStrategy::Random { .. } => {
                        assert(pair_drawn_from(pairs@[i], candidates@));
                        let (a, b) = choose|a: int, b: int|
                            0 <= a < candidates@.len() && 0 <= b < candidates@.len()
                                && cf_key(pairs@[i].0) == cf_key(candidates@[a])
                                && cf_key(pairs@[i].1) == cf_key(candidates@[b]);
                        assert(candidates@[a].candidate.wf());
                        assert(pairs@[i].0.candidate@ == candidates@[a].candidate@);
                        assert(candidates@[b].candidate.wf());
                        assert(pairs@[i].1.candidate@ == candidates@[b].candidate@);
                    },
                }
            }
        }
        let offspring = self.mate_pairs(&pairs);
        proof {
            match self.matchup_strategy {
                MatchupStrategy::LeastFittest => {
                    assert forall|i: int| 0 <= i < candidates@.len() - 1 implies
                        (#[trigger] offspring@[2 * i])@ == spec_children(
                            self.mating_strategy,
                            self.options.mirroring,
                            candidates@[i],
                            candidates@[candidates@.len() - 1 - i],
                        ).0 && offspring@[2 * i + 1]@ == spec_children(
                            self.mating_strategy,
                            self.options.mirroring,
                            candidates@[i],
                            candidates@[candidates@.len() - 1 - i],
                        ).1 by {
                        let k1 = 2 * i;
                        let k2 = 2 * i + 1;
                        assert(0 <= k1 < offspring@.len() && 0 <= k2 < offspring@.len());
                        assert(offspring@[k1]@ == spec_children(
                            self.mating_strategy,
                            self.options.mirroring,
                            pairs@[k1 / 2].0,
                            pairs@[k1 / 2].1,
                        ).0);
                        assert(offspring@[k2]@ == spec_children(
                            self.mating_strategy,
                            self.options.mirroring,
                            pairs@[k2 / 2].0,
                            pairs@[k2 / 2].1,
                        ).1);
                        lemma_children_by_key(
                            self.mating_strategy,
                            self.options.mirroring,
                            pairs@[i].0,
                            pairs@[i].1,
                            candidates@[i],
                            candidates@[candidates@.len() - 1 - i],
                        );
                    }
                },
                MatchupStrategy::NextFittest => {
                    assert forall|i: int| 0 <= i < candidates@.len() - 1 implies
                        (#[trigger] offspring@[2 * i])@ == spec_children(
                            self.mating_strategy,
                            self.options.mirroring,
                            candidates@[i],
                            candidates@[i + 1],
                        ).0 && offspring@[2 * i + 1]@ == spec_children(
                            self.mating_strategy,
                            self.options.mirroring,
                            candidates@[i],
                            candidates@[i + 1],
                        ).1 by {
                        let k1 = 2 * i;
                        let k2 = 2 * i + 1;
                        assert(0 <= k1 < offspring@.len() && 0 <= k2 < offspring@.len());
                        assert(offspring@[k1]@ == spec_children(
                            self.mating_strategy,
                            self.options.mirroring,
                            pairs@[k1 / 2].0,
                            pairs@[k1 / 2].1,
                        ).0);
                        assert(offspring@[k2]@ == spec_children(
                            self.mating_strategy,
                            self.options.mirroring,
                            pairs@[k2 / 2].0,
                            pairs@[k2 / 2].1,
                        ).1);
                        lemma_children_by_key(
                            self.mating_strategy,
                            self.options.mirroring,
                            pairs@[i].0,
                            pairs@[i].1,
                            candidates@[i],
                            candidates@[i + 1],
                        );
                    }
                },
                MatchupStrategy::Random { .. } => {
                    assert forall|k: int| 0 <= k < offspring@.len() / 2 implies offspring_of_pair(
                        #[trigger] offspring@[2 * k],
                        offspring@[2 * k + 1],
                        self.mating_strategy,
                        self.options.mirroring,
                        candidates@,
                    ) by {
                        let k1 = 2 * k;
                        let k2 = 2 * k + 1;
                        assert(0 <= k1 < offspring@.len() && 0 <= k2 < offspring@.len());
                        assert(offspring@[k1]@ == spec_children(
                            self.mating_strategy,
                            self.options.mirroring,
                            pairs@[k1 / 2].0,
                            pairs@[k1 / 2].1,
                        ).0);
                        assert(offspring@[k2]@ == spec_children(
                            self.mating_strategy,
                            self.options.mirroring,
                            pairs@[k2 / 2].0,
                            pairs@[k2 / 2].1,
                        ).1);
                        assert(pair_drawn_from(pairs@[k], candidates@));
                        let (a, b) = choose|a: int, b: int|
                            0 <= a < candidates@.len() && 0 <= b < candidates@.len()
                                && cf_key((#[trigger] pairs@[k]).0) == cf_key(candidates@[a])
                                && cf_key(pairs@[k].1) == cf_key(candidates@[b]);
                        lemma_children_by_key(
                            self.mating_strategy,
                            self.options.mirroring,
                            pairs@[k].0,
                            pairs@[k].1,
                            candidates@[a],
                            candidates@[b],
                        );
                        assert(0 <= a < candidates@.len() && 0 <= b < candidates@.len()
                            && offspring@[2 * k]@ == spec_children(
                            self.mating_strategy,
                            self.options.mirroring,
                            candidates@[a],
                            candidates@[b],
                        ).0 && offspring@[2 * k + 1]@ == spec_children(
                            self.mating_strategy,
                            self.options.mirroring,
                            candidates@[a],
                            candidates@[b],
                        ).1);
                    }
                    assert(random_offspring_ok(
                        offspring@,
                        self.mating_strategy,
                        self.options.mirroring,
                        candidates@,
                    ));
                },
            }
        }
        Ok(offspring)
    }
}

} // verus!
