//! Products, sums and powers over integer sequences, used to state and
//! compute the stacked hundredths multipliers of the battle engine.

use vstd::prelude::*;

verus! {

/// The product of all entries, 1 when empty.
pub open spec fn product_of(s: Seq<int>) -> int
    decreases s.len(),
{
    if s.len() == 0 {
        1
    } else {
        s[0] * product_of(s.skip(1))
    }
}

/// The product of the nonzero entries, 1 when empty.
pub open spec fn nonzero_product(s: Seq<int>) -> int
    decreases s.len(),
{
    if s.len() == 0 {
        1
    } else if s[0] == 0 {
        nonzero_product(s.skip(1))
    } else {
        s[0] * nonzero_product(s.skip(1))
    }
}

/// Whether some entry is zero.
pub open spec fn has_zero(s: Seq<int>) -> bool {
    exists|i: int| 0 <= i < s.len() && s[i] == 0
}

/// The sum of all entries, 0 when empty.
pub open spec fn sum_of(s: Seq<int>) -> int
    decreases s.len(),
{
    if s.len() == 0 {
        0
    } else {
        s[0] + sum_of(s.skip(1))
    }
}

/// The `k`-th power of 100.
pub open spec fn pow100(k: nat) -> int
    decreases k,
{
    if k == 0 {
        1
    } else {
        100 * pow100((k - 1) as nat)
    }
}

/// Powers of 100 are positive.
pub proof fn lemma_pow100_pos(k: nat)
    ensures
        pow100(k) > 0,
    decreases k,
{
    if k > 0 {
        lemma_pow100_pos((k - 1) as nat);
        assert(100 * pow100((k - 1) as nat) > 0) by (nonlinear_arith)
            requires
                pow100((k - 1) as nat) > 0,
        ;
    }
}

/// The product of the nonzero entries of a sequence of non-negatives is at
/// least 1.
pub proof fn lemma_nonzero_product_ge_one(s: Seq<int>)
    requires
        forall|i: int| 0 <= i < s.len() ==> s[i] >= 0,
    ensures
        nonzero_product(s) >= 1,
    decreases s.len(),
{
    if s.len() > 0 {
        assert(forall|i: int| 0 <= i < s.skip(1).len() ==> s.skip(1)[i] >= 0);
        lemma_nonzero_product_ge_one(s.skip(1));
        if s[0] != 0 {
            assert(s[0] * nonzero_product(s.skip(1)) >= 1) by (nonlinear_arith)
                requires
                    s[0] >= 1,
                    nonzero_product(s.skip(1)) >= 1,
            ;
        }
    }
}

/// A product with a zero factor is zero.
pub proof fn lemma_product_with_zero(s: Seq<int>)
    requires
        has_zero(s),
    ensures
        product_of(s) == 0,
    decreases s.len(),
{
    let w = choose|i: int| 0 <= i < s.len() && s[i] == 0;
    if s[0] == 0 {
        assert(0 * product_of(s.skip(1)) == 0) by (nonlinear_arith);
    } else {
        assert(s.skip(1)[w - 1] == 0);
        lemma_product_with_zero(s.skip(1));
        assert(s[0] * 0 == 0) by (nonlinear_arith);
    }
}

/// Without zero factors, the product equals the nonzero product.
pub proof fn lemma_product_no_zero(s: Seq<int>)
    requires
        !has_zero(s),
    ensures
        product_of(s) == nonzero_product(s),
    decreases s.len(),
{
    if s.len() > 0 {
        assert(s[0] != 0);
        assert(!has_zero(s.skip(1))) by {
            if has_zero(s.skip(1)) {
                let w = choose|i: int| 0 <= i < s.skip(1).len() && s.skip(1)[i] == 0;
                assert(s[w + 1] == 0);
            }
        }
        lemma_product_no_zero(s.skip(1));
    }
}

/// The integer values of a run of hundredths multipliers.
pub open spec fn ints_of(v: Seq<u32>) -> Seq<int> {
    v.map_values(|x: u32| x as int)
}

/// Floor-divide `num` by the `k`-th power of 100, by `k` exact divisions.
pub fn divide_pow100(num: u128, k: usize) -> (r: u128)
    ensures
        r as int == (num as int) / pow100(k as nat),
{
    proof {
        vstd::arithmetic::div_mod::lemma_div_basics(num as int);
    }
    let mut v: u128 = num;
    let mut j: usize = 0;
    while j < k
        invariant
            j <= k,
            v as int == (num as int) / pow100(j as nat),
        decreases k - j,
    {
        proof {
            lemma_pow100_pos(j as nat);
            lemma_pow100_pos((j + 1) as nat);
            vstd::arithmetic::div_mod::lemma_div_denominator(
                num as int,
                pow100(j as nat),
                100,
            );
            assert(pow100(j as nat) * 100 == 100 * pow100(j as nat)) by (nonlinear_arith);
            assert(pow100((j + 1) as nat) == 100 * pow100(j as nat));
        }
        v = v / 100;
        j += 1;
    }
    v
}

/// Clamp a non-negative value to the `i32` range.
pub fn saturate_to_i32(v: u128) -> (r: i32)
    ensures
        r as int == (if v as int > i32::MAX as int {
            i32::MAX as int
        } else {
            v as int
        }),
        r >= 0,
{
    if v > (i32::MAX as u128) {
        i32::MAX
    } else {
        v as i32
    }
}

/// The product of the nonzero entries of a run of hundredths multipliers,
/// its length, and whether any entry is zero.
pub fn product_hundredths(ms: &Vec<u32>) -> (r: (u128, usize, bool))
    requires
        nonzero_product(ints_of(ms@)) <= u128::MAX,
    ensures
        r.0 as int == nonzero_product(ints_of(ms@)),
        r.1 == ms@.len(),
        r.2 == has_zero(ints_of(ms@)),
{
    let ghost full = ints_of(ms@);
    proof {
        assert(forall|j: int| 0 <= j < full.len() ==> full[j] >= 0);
    }
    let mut acc: u128 = 1;
    let mut saw_zero = false;
    let mut i: usize = 0;
    proof {
        assert(full.skip(0) =~= full);
        assert(1 * nonzero_product(full) == nonzero_product(full)) by (nonlinear_arith);
        assert(full.take(0) =~= Seq::<int>::empty());
        assert(!has_zero(Seq::<int>::empty()));
    }
    while i < ms.len()
        invariant
            i <= ms.len(),
            full == ints_of(ms@),
            nonzero_product(full) <= u128::MAX,
            (acc as int) * nonzero_product(full.skip(i as int)) == nonzero_product(full),
            saw_zero == has_zero(full.take(i as int)),
            acc >= 1,
            forall|j: int| 0 <= j < full.len() ==> full[j] >= 0,
        decreases ms.len() - i,
    {
        let ghost rem = full.skip(i as int);
        proof {
            assert(rem[0] == full[i as int]);
            assert(rem.skip(1) =~= full.skip(i + 1 as int));
            assert(forall|j: int| 0 <= j < rem.skip(1).len() ==> rem.skip(1)[j] >= 0);
            lemma_nonzero_product_ge_one(rem.skip(1));
        }
        let m = ms[i];
        if m == 0 {
            saw_zero = true;
            proof {
                assert(full.take(i + 1 as int)[i as int] == 0);
                assert(has_zero(full.take(i + 1 as int)));
            }
        } else {
            proof {
                assert(nonzero_product(rem) == (m as int) * nonzero_product(rem.skip(1)));
                assert((acc as int) * ((m as int) * nonzero_product(rem.skip(1))) == ((acc as int)
                    * (m as int)) * nonzero_product(rem.skip(1))) by (nonlinear_arith);
                assert((acc as int) * (m as int) <= nonzero_product(full)) by (nonlinear_arith)
                    requires
                        ((acc as int) * (m as int)) * nonzero_product(rem.skip(1))
                            == nonzero_product(full),
                        nonzero_product(rem.skip(1)) >= 1,
                        acc as int >= 1,
                        m as int >= 1,
                ;
                assert((acc as int) * (m as int) >= 1) by (nonlinear_arith)
                    requires
                        acc as int >= 1,
                        m as int >= 1,
                ;
                assert(has_zero(full.take(i + 1 as int)) == has_zero(full.take(i as int))) by {
                    if has_zero(full.take(i + 1 as int)) {
                        let w = choose|w: int|
                            0 <= w < full.take(i + 1 as int).len() && #[trigger] full.take(
                                i + 1 as int,
                            )[w] == 0;
                        if w < i {
                            assert(full.take(i as int)[w] == 0);
                        }
                    }
                    if has_zero(full.take(i as int)) {
                        let w = choose|w: int|
                            0 <= w < full.take(i as int).len() && #[trigger] full.take(
                                i as int,
                            )[w] == 0;
                        assert(full.take(i + 1 as int)[w] == 0);
                    }
                }
            }
            acc = acc * (m as u128);
        }
        i += 1;
    }
    proof {
        assert(full.skip(full.len() as int) =~= Seq::<int>::empty());
        assert(nonzero_product(Seq::<int>::empty()) == 1);
        assert((acc as int) * 1 == acc as int) by (nonlinear_arith);
        assert(full.take(full.len() as int) =~= full);
    }
    (acc, ms.len(), saw_zero)
}

/// A product of non-negatives is non-negative.
pub proof fn lemma_product_nonneg(s: Seq<int>)
    requires
        forall|i: int| 0 <= i < s.len() ==> s[i] >= 0,
    ensures
        product_of(s) >= 0,
    decreases s.len(),
{
    if s.len() > 0 {
        assert(forall|i: int| 0 <= i < s.skip(1).len() ==> s.skip(1)[i] >= 0);
        lemma_product_nonneg(s.skip(1));
        assert(s[0] * product_of(s.skip(1)) >= 0) by (nonlinear_arith)
            requires
                s[0] >= 0,
                product_of(s.skip(1)) >= 0,
        ;
    }
}

} // verus!
