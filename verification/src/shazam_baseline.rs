//! Constellation hashing baseline: spectral peaks of neighbouring frames are
//! paired into `(f1, f2, Δt)` hashes; two recordings are compared by the
//! hashes they share.
use vstd::prelude::*;
use std::collections::HashSet;

verus! {

broadcast use vstd::std_specs::hash::group_hash_axioms;

/// Peaks of a frame that are paired.
pub const FAN_OUT: usize = 5;

/// Frames after a peak's frame that its partners may come from (exclusive).
pub const MAX_DT: usize = 20;

/// The set of constellation hashes of a recording.
pub struct ShazamFingerprint {
    pub hashes: HashSet<u64>,
}

/// Packs two frequency bins and a frame distance: `f1` above bit 18, `f2`
/// from bit 8, `dt` in the low byte (wider values overlap, as in `|`).
pub open spec fn pack_hash_spec(f1: usize, f2: usize, dt: usize) -> u64 {
    ((f1 as u64) << 18u64) | ((f2 as u64) << 8u64) | (dt as u64)
}

pub fn pack_hash(f1: usize, f2: usize, dt: usize) -> (h: u64)
    ensures
        h == pack_hash_spec(f1, f2, dt),
{
    ((f1 as u64) << 18u64) | ((f2 as u64) << 8u64) | (dt as u64)
}

/// Peak `i` of frame `t1` pairs with peak `j` of frame `t1 + dt`: both among
/// the first `FAN_OUT` peaks of their frames, `1 <= dt < MAX_DT`.
pub open spec fn pair_ok(frames: Seq<Vec<usize>>, t1: int, i: int, dt: int, j: int) -> bool {
    &&& 0 <= t1 < frames.len()
    &&& 0 <= i < 5
    &&& i < frames[t1]@.len()
    &&& 1 <= dt < 20
    &&& t1 + dt < frames.len()
    &&& 0 <= j < 5
    &&& j < frames[t1 + dt]@.len()
}

/// The hash of a pair.
pub open spec fn pair_hash(frames: Seq<Vec<usize>>, t1: int, i: int, dt: int, j: int) -> u64 {
    pack_hash_spec(frames[t1]@[i], frames[t1 + dt]@[j], dt as usize)
}

/// `(t1, i, dt, j)` comes before `(a, b, c, d)` in the order the pairs are visited.
pub open spec fn visited_before(t1: int, i: int, dt: int, j: int, a: int, b: int, c: int, d: int) -> bool {
    t1 < a || (t1 == a && (i < b || (i == b && (dt < c || (dt == c && j < d)))))
}

/// Hashes of the pairs visited before `(a, b, c, d)`.
pub open spec fn hashes_before(frames: Seq<Vec<usize>>, a: int, b: int, c: int, d: int) -> Set<u64> {
    Set::new(
        |h: u64|
            exists|t1: int, i: int, dt: int, j: int|
                #![trigger pair_hash(frames, t1, i, dt, j)]
                pair_ok(frames, t1, i, dt, j) && visited_before(t1, i, dt, j, a, b, c, d)
                    && pair_hash(frames, t1, i, dt, j) == h,
    )
}

/// Hashes of all pairs of peaks of `frames`.
pub open spec fn constellation(frames: Seq<Vec<usize>>) -> Set<u64> {
    Set::new(
        |h: u64|
            exists|t1: int, i: int, dt: int, j: int|
                #![trigger pair_hash(frames, t1, i, dt, j)]
                pair_ok(frames, t1, i, dt, j) && pair_hash(frames, t1, i, dt, j) == h,
    )
}

proof fn lemma_same_prefix(
    frames: Seq<Vec<usize>>,
    a: int,
    b: int,
    c: int,
    d: int,
    a2: int,
    b2: int,
    c2: int,
    d2: int,
)
    requires
        forall|t1: int, i: int, dt: int, j: int|
            #[trigger] pair_ok(frames, t1, i, dt, j) ==> (visited_before(t1, i, dt, j, a, b, c, d)
                <==> visited_before(t1, i, dt, j, a2, b2, c2, d2)),
    ensures
        hashes_before(frames, a, b, c, d) == hashes_before(frames, a2, b2, c2, d2),
{
    assert(hashes_before(frames, a, b, c, d) =~= hashes_before(frames, a2, b2, c2, d2)) by {
        assert forall|h: u64| hashes_before(frames, a, b, c, d).contains(h) implies hashes_before(
            frames,
            a2,
            b2,
            c2,
            d2,
        ).contains(h) by {
            let (t1, i, dt, j) = choose|t1: int, i: int, dt: int, j: int|
                #![trigger pair_hash(frames, t1, i, dt, j)]
                pair_ok(frames, t1, i, dt, j) && visited_before(t1, i, dt, j, a, b, c, d)
                    && pair_hash(frames, t1, i, dt, j) == h;
            assert(pair_ok(frames, t1, i, dt, j));
        }
        assert forall|h: u64| hashes_before(frames, a2, b2, c2, d2).contains(h) implies hashes_before(
            frames,
            a,
            b,
            c,
            d,
        ).contains(h) by {
            let (t1, i, dt, j) = choose|t1: int, i: int, dt: int, j: int|
                #![trigger pair_hash(frames, t1, i, dt, j)]
                pair_ok(frames, t1, i, dt, j) && visited_before(t1, i, dt, j, a2, b2, c2, d2)
                    && pair_hash(frames, t1, i, dt, j) == h;
            assert(pair_ok(frames, t1, i, dt, j));
        }
    }
}

proof fn lemma_next_pair(frames: Seq<Vec<usize>>, a: int, b: int, c: int, d: int)
    requires
        pair_ok(frames, a, b, c, d),
    ensures
        hashes_before(frames, a, b, c, d + 1) == hashes_before(frames, a, b, c, d).insert(
            pair_hash(frames, a, b, c, d),
        ),
{
    let s1 = hashes_before(frames, a, b, c, d + 1);
    let s0 = hashes_before(frames, a, b, c, d);
    let h0 = pair_hash(frames, a, b, c, d);
    assert(s1 =~= s0.insert(h0)) by {
        assert forall|h: u64| s1.contains(h) implies s0.insert(h0).contains(h) by {
            let (t1, i, dt, j) = choose|t1: int, i: int, dt: int, j: int|
                #![trigger pair_hash(frames, t1, i, dt, j)]
                pair_ok(frames, t1, i, dt, j) && visited_before(t1, i, dt, j, a, b, c, d + 1)
                    && pair_hash(frames, t1, i, dt, j) == h;
            if !(t1 == a && i == b && dt == c && j == d) {
                assert(visited_before(t1, i, dt, j, a, b, c, d));
                assert(s0.contains(h));
            }
        }
        assert forall|h: u64| s0.insert(h0).contains(h) implies s1.contains(h) by {
            if h == h0 {
                assert(pair_ok(frames, a, b, c, d) && visited_before(a, b, c, d, a, b, c, d + 1)
                    && pair_hash(frames, a, b, c, d) == h);
            } else {
                let (t1, i, dt, j) = choose|t1: int, i: int, dt: int, j: int|
                    #![trigger pair_hash(frames, t1, i, dt, j)]
                    pair_ok(frames, t1, i, dt, j) && visited_before(t1, i, dt, j, a, b, c, d)
                        && pair_hash(frames, t1, i, dt, j) == h;
                assert(visited_before(t1, i, dt, j, a, b, c, d + 1));
            }
        }
    }
}

/// Hashes of every pair of peaks: each of the first `FAN_OUT` peaks of a frame
/// with each of the first `FAN_OUT` peaks of the next `MAX_DT - 1` frames.
pub fn hashes_from_peaks(frames: &Vec<Vec<usize>>) -> (set: HashSet<u64>)
    ensures
        set@ == constellation(frames@),
{
    let ghost fr = frames@;
    let mut set: HashSet<u64> = HashSet::new();
    let n = frames.len();
    proof {
        lemma_same_prefix(fr, 0, 0, 0, 0, 0, 0, 0, 0);
        assert(set@ =~= hashes_before(fr, 0, 0, 0, 0));
    }
    let mut t1: usize = 0;
    while t1 < n
        invariant
            fr == frames@,
            n == fr.len(),
            t1 <= n,
            set@ == hashes_before(fr, t1 as int, 0, 0, 0),
        decreases n - t1,
    {
        let imax = if frames[t1].len() < FAN_OUT {
            frames[t1].len()
        } else {
            FAN_OUT
        };
        let dmax = if MAX_DT < n - t1 {
            MAX_DT
        } else {
            n - t1
        };
        let mut i: usize = 0;
        while i < imax
            invariant
                fr == frames@,
                n == fr.len(),
                t1 < n,
                imax <= 5,
                imax <= fr[t1 as int]@.len(),
                imax == 5 || imax == fr[t1 as int]@.len(),
                dmax <= 20,
                t1 + dmax <= n,
                dmax == 20 || t1 + dmax == n,
                i <= imax,
                set@ == hashes_before(fr, t1 as int, i as int, 0, 0),
            decreases imax - i,
        {
            let f1 = frames[t1][i];
            let mut dt: usize = 1;
            proof {
                lemma_same_prefix(fr, t1 as int, i as int, 0, 0, t1 as int, i as int, 1, 0);
            }
            while dt < dmax
                invariant
                    fr == frames@,
                    n == fr.len(),
                    t1 < n,
                    i < imax,
                    imax <= 5,
                    imax <= fr[t1 as int]@.len(),
                    dmax <= 20,
                    t1 + dmax <= n,
                    dmax == 20 || t1 + dmax == n,
                    f1 == fr[t1 as int]@[i as int],
                    1 <= dt,
                    dt <= dmax || dmax == 0,
                    set@ == hashes_before(fr, t1 as int, i as int, dt as int, 0),
                decreases dmax - dt,
            {
                let jmax = if frames[t1 + dt].len() < FAN_OUT {
                    frames[t1 + dt].len()
                } else {
                    FAN_OUT
                };
                let mut j: usize = 0;
                while j < jmax
                    invariant
                        fr == frames@,
                        n == fr.len(),
                        t1 < n,
                        i < imax,
                        imax <= 5,
                        imax <= fr[t1 as int]@.len(),
                        1 <= dt < dmax,
                        dmax <= 20,
                        t1 + dmax <= n,
                        f1 == fr[t1 as int]@[i as int],
                        jmax <= 5,
                        jmax <= fr[t1 + dt]@.len(),
                        j <= jmax,
                        set@ == hashes_before(fr, t1 as int, i as int, dt as int, j as int),
                    decreases jmax - j,
                {
                    let f2 = frames[t1 + dt][j];
                    let h = pack_hash(f1, f2, dt);
                    proof {
                        lemma_next_pair(fr, t1 as int, i as int, dt as int, j as int);
                    }
                    set.insert(h);
                    j = j + 1;
                }
                proof {
                    lemma_same_prefix(
                        fr,
                        t1 as int,
                        i as int,
                        dt as int,
                        jmax as int,
                        t1 as int,
                        i as int,
                        dt + 1,
                        0,
                    );
                }
                dt = dt + 1;
            }
            proof {
                lemma_same_prefix(fr, t1 as int, i as int, dt as int, 0, t1 as int, i + 1, 0, 0);
            }
            i = i + 1;
        }
        proof {
            lemma_same_prefix(fr, t1 as int, imax as int, 0, 0, t1 + 1, 0, 0, 0);
        }
        t1 = t1 + 1;
    }
    proof {
        assert(set@ =~= constellation(fr)) by {
            assert forall|h: u64| set@.contains(h) implies constellation(fr).contains(h) by {
                let (a, b, c, d) = choose|t1: int, i: int, dt: int, j: int|
                    #![trigger pair_hash(fr, t1, i, dt, j)]
                    pair_ok(fr, t1, i, dt, j) && visited_before(t1, i, dt, j, n as int, 0, 0, 0)
                        && pair_hash(fr, t1, i, dt, j) == h;
                assert(pair_ok(fr, a, b, c, d) && pair_hash(fr, a, b, c, d) == h);
            }
            assert forall|h: u64| constellation(fr).contains(h) implies set@.contains(h) by {
                let (a, b, c, d) = choose|t1: int, i: int, dt: int, j: int|
                    #![trigger pair_hash(fr, t1, i, dt, j)]
                    pair_ok(fr, t1, i, dt, j) && pair_hash(fr, t1, i, dt, j) == h;
                assert(visited_before(a, b, c, d, n as int, 0, 0, 0));
            }
        }
    }
    set
}

/// Number of entries of `s` that lie in `o`.
pub open spec fn count_in(s: Seq<u64>, o: Set<u64>) -> nat
    decreases s.len(),
{
    if s.len() == 0 {
        0
    } else {
        count_in(s.drop_last(), o) + if o.contains(s.last()) {
            1nat
        } else {
            0nat
        }
    }
}

proof fn lemma_count_in_is_intersection(s: Seq<u64>, o: Set<u64>)
    requires
        s.no_duplicates(),
    ensures
        count_in(s, o) == s.to_set().intersect(o).len(),
        s.to_set().finite(),
    decreases s.len(),
{
    broadcast use vstd::seq_lib::seq_to_set_is_finite;
    broadcast use vstd::set::group_set_axioms;

    if s.len() == 0 {
        assert(s.to_set().intersect(o) =~= Set::<u64>::empty());
    } else {
        let r = s.drop_last();
        let x = s.last();
        assert(r.no_duplicates()) by {
            assert forall|a: int, b: int| 0 <= a < r.len() && 0 <= b < r.len() && a != b implies r[a]
                != r[b] by {
                assert(r[a] == s[a] && r[b] == s[b]);
            }
        }
        lemma_count_in_is_intersection(r, o);
        assert(s.to_set() =~= r.to_set().insert(x)) by {
            assert forall|y: u64| s.to_set().contains(y) implies r.to_set().insert(x).contains(y) by {
                let k = choose|k: int| 0 <= k < s.len() && s[k] == y;
                if k < s.len() - 1 {
                    assert(r[k] == y);
                }
            }
            assert forall|y: u64| r.to_set().insert(x).contains(y) implies s.to_set().contains(y) by {
                if y != x {
                    let k = choose|k: int| 0 <= k < r.len() && r[k] == y;
                    assert(s[k] == y);
                } else {
                    assert(s[s.len() - 1] == y);
                }
            }
        }
        assert(!r.to_set().contains(x)) by {
            if r.to_set().contains(x) {
                let k = choose|k: int| 0 <= k < r.len() && r[k] == x;
                assert(s[k] == s[s.len() - 1]);
            }
        }
        let ri = r.to_set().intersect(o);
        if o.contains(x) {
            assert(s.to_set().intersect(o) =~= ri.insert(x));
        } else {
            assert(s.to_set().intersect(o) =~= ri);
        }
    }
}

/// Shared-hash counts of two fingerprints: `None` when either has no hash,
/// else the number of shared hashes and the size of the smaller set.
pub open spec fn overlap_spec(a: Set<u64>, b: Set<u64>) -> Option<(nat, nat)> {
    if a.len() == 0 || b.len() == 0 {
        None
    } else {
        Some(
            (
                a.intersect(b).len(),
                if a.len() <= b.len() {
                    a.len()
                } else {
                    b.len()
                },
            ),
        )
    }
}

impl ShazamFingerprint {
    /// The number of hashes the two fingerprints share and the size of the
    /// smaller one; `None` when either is empty.
    pub fn overlap(&self, other: &ShazamFingerprint) -> (r: Option<(usize, usize)>)
        ensures
            match overlap_spec(self.hashes@, other.hashes@) {
                Some((m, d)) => r == Some((m as usize, d as usize)),
                None => r is None,
            },
    {
        broadcast use vstd::seq_lib::seq_to_set_is_finite;

        let la = self.hashes.len();
        let lb = other.hashes.len();
        if la == 0 || lb == 0 {
            return None;
        }
        let denom = if la <= lb {
            la
        } else {
            lb
        };
        let mut matches: usize = 0;
        let ghost mut seen: Seq<u64> = Seq::empty();
        for h in it: self.hashes.iter()
            invariant
                seen == it.seq().take(it.index() as int).unref(),
                matches == count_in(seen, other.hashes@),
                matches <= it.index(),
                it.seq().len() == la,
                it.seq().unref().no_duplicates(),
                it.seq().unref().to_set() == self.hashes@,
                it.index() == it.seq().len() ==> seen.no_duplicates() && seen.to_set()
                    == self.hashes@,
        {
            proof {
                let ghost prev = seen;
                seen = seen.push(*h);
                assert(seen.drop_last() =~= prev);
                assert(it.seq().take(it.index() + 1).unref() =~= seen);
                assert(it.seq().take(it.seq().len() as int).unref() =~= it.seq().unref());
            }
            if other.hashes.contains(h) {
                matches = matches + 1;
            }
        }
        proof {
            lemma_count_in_is_intersection(seen, other.hashes@);
        }
        Some((matches, denom))
    }
}

/// A non-empty fingerprint shares every hash with itself: the shared count
/// equals the size, so the similarity ratio is 1.
pub proof fn law_self_overlap(a: Set<u64>)
    requires
        a.len() > 0,
    ensures
        overlap_spec(a, a) == Some((a.len(), a.len())),
{
    assert(a.intersect(a) =~= a);
}

/// Overlap is symmetric in the two fingerprints.
pub proof fn law_overlap_symmetric(a: Set<u64>, b: Set<u64>)
    ensures
        overlap_spec(a, b) == overlap_spec(b, a),
{
    assert(a.intersect(b) =~= b.intersect(a));
}

/// For two non-empty fingerprints the denominator of the similarity is the
/// size of the smaller one: it is at most both sizes and equals one of them;
/// the shared count is that of the common hashes and, for finite sets, never
/// exceeds the denominator, so the similarity is at most 1.
pub proof fn law_overlap_denominator_is_smaller_size(a: Set<u64>, b: Set<u64>)
    requires
        a.len() > 0,
        b.len() > 0,
    ensures
        overlap_spec(a, b) is Some,
        overlap_spec(a, b)->Some_0.0 == a.intersect(b).len(),
        overlap_spec(a, b)->Some_0.1 <= a.len(),
        overlap_spec(a, b)->Some_0.1 <= b.len(),
        overlap_spec(a, b)->Some_0.1 == a.len() || overlap_spec(a, b)->Some_0.1 == b.len(),
        a.finite() && b.finite() ==> overlap_spec(a, b)->Some_0.0 <= overlap_spec(a, b)->Some_0.1,
{
    if a.finite() && b.finite() {
        vstd::set_lib::lemma_len_intersect::<u64>(a, b);
        vstd::set_lib::lemma_len_intersect::<u64>(b, a);
        assert(a.intersect(b) =~= b.intersect(a));
    }
}

} // verus!
