use vstd::prelude::*;

verus! {

/// `size` rounded up to the next multiple of `align`; a size of zero still
/// takes one unit of `align`.
pub open spec fn aligned(size: nat, align: nat) -> nat
    recommends
        align > 0,
{
    if size == 0 {
        align
    } else {
        (((size + align - 1) as int / (align as int)) * (align as int)) as nat
    }
}

/// `aligned` is the least positive multiple of `align` that is at least `size`.
pub proof fn lemma_aligned_least(size: nat, align: nat)
    requires
        align > 0,
    ensures
        aligned(size, align) % align == 0,
        aligned(size, align) >= size,
        aligned(size, align) > 0,
        size > 0 ==> aligned(size, align) < size + align,
        forall|m: nat| m > 0 && #[trigger] (m % align) == 0 && m >= size ==> aligned(size, align) <= m,
{
    if size == 0 {
        assert((align as int) % (align as int) == 0) by (nonlinear_arith)
            requires align > 0;
        assert forall|m: nat| m > 0 && #[trigger] (m % align) == 0 && m >= size implies align <= m by {
            assert(m >= align) by (nonlinear_arith)
                requires m > 0, m % align == 0, align > 0;
        }
    } else {
        let q: int = (size + align - 1) as int / (align as int);
        assert(q * align <= size + align - 1) by (nonlinear_arith)
            requires q == (size + align - 1) as int / (align as int), align > 0;
        assert(q * align > size - 1) by (nonlinear_arith)
            requires q == (size + align - 1) as int / (align as int), align > 0, size > 0;
        assert((q * (align as int)) % (align as int) == 0) by (nonlinear_arith)
            requires align > 0;
        assert forall|m: nat| m > 0 && #[trigger] (m % align) == 0 && m >= size implies q * align <= m by {
            let k: int = m as int / (align as int);
            assert(m == k * align) by (nonlinear_arith)
                requires m % align == 0, align > 0, k == m as int / (align as int);
            assert(k >= q) by (nonlinear_arith)
                requires m == k * align, m >= size, q * align <= size + align - 1,
                    q * align > size - 1, align > 0, size > 0;
            assert(q * align <= m) by (nonlinear_arith)
                requires k >= q, m == k * align, align > 0;
        }
    }
}

/// Aligning an aligned size leaves it as it is.
pub proof fn lemma_aligned_idempotent(size: nat, align: nat)
    requires
        align > 0,
    ensures
        aligned(aligned(size, align), align) == aligned(size, align),
{
    let a = aligned(size, align);
    lemma_aligned_least(size, align);
    lemma_aligned_least(a, align);
    assert(aligned(a, align) <= a);
}

/// Align `size` to the next multiple of `align`.
pub fn aligned_by(size: usize, align: usize) -> (r: usize)
    requires
        align > 0,
        size <= usize::MAX - align + 1,
    ensures
        r == aligned(size as nat, align as nat),
{
    if size == 0 {
        align
    } else {
        let q: usize = (size - 1) / align + 1;
        assert((q as int) * (align as int) <= size - 1 + align) by (nonlinear_arith)
            requires q == (size - 1) / (align as int) + 1, align > 0, size > 0;
        assert(q as int == (size + align - 1) as int / (align as int)) by (nonlinear_arith)
            requires q == (size - 1) / (align as int) + 1, align > 0, size > 0;
        q * align
    }
}

} // verus!
