//! Integer products and ranges.
use vstd::prelude::*;

verus! {

pub open spec fn fits_i64(v: int) -> bool {
    i64::MIN <= v <= i64::MAX
}

/// The product of two integers, which 128 bits always hold.
pub fn wide_product(a: i64, b: i64) -> (r: i128)
    ensures
        r == a * b,
{
    assert(-0x4000_0000_0000_0000_0000_0000_0000_0000 <= a * b
        <= 0x4000_0000_0000_0000_0000_0000_0000_0000) by (nonlinear_arith)
        requires
            -0x8000_0000_0000_0000 <= a <= 0x7fff_ffff_ffff_ffff,
            -0x8000_0000_0000_0000 <= b <= 0x7fff_ffff_ffff_ffff,
    ;
    a as i128 * b as i128
}

/// The product of a list of integers.
pub open spec fn product(v: Seq<i64>) -> int
    decreases v.len(),
{
    if v.len() == 0 {
        1
    } else {
        product(v.drop_last()) * v.last()
    }
}

/// Every product of a front part of the list is a 64-bit integer.
pub open spec fn product_fits(v: Seq<i64>) -> bool {
    forall|n: int| 0 <= n <= v.len() ==> fits_i64(#[trigger] product(v.take(n)))
}

/// The product of a list whose partial products are in range.
pub fn checked_product(v: &Vec<i64>) -> (r: Option<i64>)
    ensures
        r matches Some(p) ==> product_fits(v@) && p == product(v@),
        r is None ==> !product_fits(v@),
{
    let mut p: i64 = 1;
    let mut i: usize = 0;
    assert(v@.take(0) =~= Seq::<i64>::empty());
    while i < v.len()
        invariant
            i <= v@.len(),
            p == product(v@.take(i as int)),
            forall|n: int| 0 <= n <= i ==> fits_i64(#[trigger] product(v@.take(n))),
        decreases v@.len() - i,
    {
        assert(v@.take(i + 1).drop_last() =~= v@.take(i as int));
        p = match p.checked_mul(v[i]) {
            Some(q) => q,
            None => {
                assert(!fits_i64(product(v@.take(i + 1))));
                return None;
            },
        };
        i = i + 1;
    }
    assert(v@.take(i as int) =~= v@);
    Some(p)
}

/// The product of two lists one after the other.
pub proof fn lemma_product_concat(a: Seq<i64>, b: Seq<i64>)
    ensures
        product(a + b) == product(a) * product(b),
    decreases b.len(),
{
    if b.len() == 0 {
        assert(a + b =~= a);
    } else {
        lemma_product_concat(a, b.drop_last());
        assert((a + b).drop_last() =~= a + b.drop_last());
        let x = product(a);
        let y = product(b.drop_last());
        let z = b.last() as int;
        assert((x * y) * z == x * (y * z)) by (nonlinear_arith);
    }
}

} // verus!
