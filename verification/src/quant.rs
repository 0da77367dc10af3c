//! Size accounting of quantized frames.
use vstd::prelude::*;
use crate::hodge_math::ScClass;

verus! {

/// Number of non-zero entries of `v`.
pub open spec fn count_nonzero(v: Seq<i8>) -> nat
    decreases v.len(),
{
    if v.len() == 0 {
        0
    } else {
        count_nonzero(v.drop_last()) + if v.last() != 0 {
            1nat
        } else {
            0nat
        }
    }
}

/// Approximate bytes of a quantized frame before entropy coding: 8 bytes of
/// header and scales, the gradient at 8 bits (SC1) or 16 bits per sample, the
/// non-zero solenoidal samples (none for SC1), and the class byte.
pub open spec fn quant_size_spec(sc: ScClass, grad_len: nat, sol: Seq<i8>) -> nat {
    let grad_bytes = match sc {
        ScClass::SC1 => grad_len / 2,
        _ => grad_len * 2,
    };
    let sol_bytes = match sc {
        ScClass::SC1 => 0,
        _ => count_nonzero(sol),
    };
    1 + 2 + 4 + grad_bytes + 4 + sol_bytes + 1
}

pub fn quant_byte_size(sc: ScClass, grad_len: usize, sol: &[i8]) -> (r: usize)
    requires
        2 * grad_len + sol@.len() + 12 <= usize::MAX,
    ensures
        r == quant_size_spec(sc, grad_len as nat, sol@),
{
    let grad_bytes = match sc {
        ScClass::SC1 => grad_len / 2,
        _ => grad_len * 2,
    };
    let mut sol_bytes: usize = 0;
    match sc {
        ScClass::SC1 => {},
        _ => {
            let mut i: usize = 0;
            while i < sol.len()
                invariant
                    i <= sol@.len(),
                    sol_bytes == count_nonzero(sol@.take(i as int)),
                    sol_bytes <= i,
                decreases sol@.len() - i,
            {
                assert(sol@.take(i + 1).drop_last() =~= sol@.take(i as int));
                if sol[i] != 0 {
                    sol_bytes = sol_bytes + 1;
                }
                i = i + 1;
            }
            assert(sol@.take(sol@.len() as int) =~= sol@);
        },
    }
    1 + 2 + 4 + grad_bytes + 4 + sol_bytes + 1
}

proof fn lemma_count_nonzero_append(s: Seq<i8>, t: Seq<i8>)
    ensures
        count_nonzero(s + t) == count_nonzero(s) + count_nonzero(t),
    decreases t.len(),
{
    if t.len() == 0 {
        assert(s + t =~= s);
    } else {
        lemma_count_nonzero_append(s, t.drop_last());
        assert((s + t).drop_last() =~= s + t.drop_last());
        assert((s + t).last() == t.last());
    }
}

proof fn lemma_count_nonzero_one(v: i8)
    ensures
        count_nonzero(seq![v]) == if v != 0 {
            1nat
        } else {
            0nat
        },
{
    assert(seq![v].drop_last() =~= Seq::<i8>::empty());
    assert(count_nonzero(Seq::<i8>::empty()) == 0);
    assert(seq![v].last() == v);
}

/// A frame with no solenoidal samples takes 12 bytes of framing plus its
/// gradient: half a byte per sample for SC1, two bytes per sample otherwise.
pub proof fn law_quant_size_without_samples(sc: ScClass, grad_len: nat)
    ensures
        quant_size_spec(sc, grad_len, Seq::<i8>::empty()) == 12 + match sc {
            ScClass::SC1 => grad_len / 2,
            _ => 2 * grad_len,
        },
{
}

/// A zero solenoidal sample costs nothing, whatever the class and wherever
/// it stands.
pub proof fn law_quant_size_ignores_zero_samples(sc: ScClass, grad_len: nat, s1: Seq<i8>, s2: Seq<i8>)
    ensures
        quant_size_spec(sc, grad_len, s1 + seq![0i8] + s2) == quant_size_spec(sc, grad_len, s1 + s2),
{
    lemma_count_nonzero_append(s1 + seq![0i8], s2);
    lemma_count_nonzero_append(s1, seq![0i8]);
    lemma_count_nonzero_append(s1, s2);
    lemma_count_nonzero_one(0i8);
}

/// A non-zero solenoidal sample costs one byte in SC2 and SC3 frames and
/// nothing in SC1 frames, wherever it stands.
pub proof fn law_quant_size_counts_nonzero_samples(
    sc: ScClass,
    grad_len: nat,
    s1: Seq<i8>,
    v: i8,
    s2: Seq<i8>,
)
    requires
        v != 0,
    ensures
        quant_size_spec(sc, grad_len, s1 + seq![v] + s2) == quant_size_spec(sc, grad_len, s1 + s2) + match sc {
            ScClass::SC1 => 0nat,
            _ => 1nat,
        },
{
    lemma_count_nonzero_append(s1 + seq![v], s2);
    lemma_count_nonzero_append(s1, seq![v]);
    lemma_count_nonzero_append(s1, s2);
    lemma_count_nonzero_one(v);
}

/// SC2 and SC3 frames of the same samples have the same size.
pub proof fn law_quant_size_sc2_sc3_agree(grad_len: nat, sol: Seq<i8>)
    ensures
        quant_size_spec(ScClass::SC2, grad_len, sol) == quant_size_spec(ScClass::SC3, grad_len, sol),
{
}

} // verus!
