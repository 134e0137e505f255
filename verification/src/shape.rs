//! Shapes: the extents of a tensor along its dimensions.

use vstd::prelude::*;

verus! {

/// Whether no extent of a shape is negative.
pub open spec fn extents_valid(size: Seq<i64>) -> bool {
    forall|i: int| 0 <= i < size.len() ==> 0 <= #[trigger] size[i]
}

/// The product of the extents of a shape; 1 for the empty shape, that of a
/// scalar.
pub open spec fn volume(size: Seq<i64>) -> int
    decreases size.len(),
{
    if size.len() == 0 {
        1
    } else {
        volume(size.drop_last()) * size.last()
    }
}

/// Whether a shape is one that `count` elements can have: no extent is
/// negative, and their product is `count`.
pub open spec fn shape_holds(size: Seq<i64>, count: nat) -> bool {
    extents_valid(size) && volume(size) == count
}

/// The volume of a shape whose extents are all positive is positive.
pub proof fn lemma_volume_positive(size: Seq<i64>)
    requires
        forall|i: int| 0 <= i < size.len() ==> 1 <= #[trigger] size[i],
    ensures
        1 <= volume(size),
    decreases size.len(),
{
    if size.len() > 0 {
        lemma_volume_positive(size.drop_last());
        assert(1 <= volume(size.drop_last()) * size.last()) by (nonlinear_arith)
            requires
                1 <= volume(size.drop_last()),
                1 <= size.last(),
        ;
    }
}

/// A shape with an extent of zero has the volume zero.
pub proof fn lemma_volume_zero(size: Seq<i64>, at: int)
    requires
        0 <= at < size.len(),
        size[at] == 0,
    ensures
        volume(size) == 0,
    decreases size.len(),
{
    if at == size.len() - 1 {
        assert(volume(size.drop_last()) * 0 == 0);
    } else {
        lemma_volume_zero(size.drop_last(), at);
        assert(0 * size.last() == 0);
    }
}

/// Where all extents are positive, the volume of the first `n` dimensions is
/// at most that of the whole shape.
pub proof fn lemma_volume_grows(size: Seq<i64>, n: int)
    requires
        0 <= n <= size.len(),
        forall|i: int| 0 <= i < size.len() ==> 1 <= #[trigger] size[i],
    ensures
        1 <= volume(size.take(n)) <= volume(size),
    decreases size.len() - n,
{
    lemma_volume_positive(size.take(n));
    if n < size.len() {
        lemma_volume_grows(size, n + 1);
        assert(size.take(n + 1).drop_last() =~= size.take(n));
        assert(volume(size.take(n)) <= volume(size.take(n)) * size[n]) by (nonlinear_arith)
            requires
                1 <= volume(size.take(n)),
                1 <= size[n],
        ;
    } else {
        assert(size.take(n) =~= size);
    }
}

/// Returns whether `size` is a shape that `count` elements can have.
pub fn shape_matches(size: &[i64], count: usize) -> (matches: bool)
    ensures
        matches == shape_holds(size@, count as nat),
{
    let mut has_zero = false;
    let mut i: usize = 0;
    while i < size.len()
        invariant
            i <= size@.len(),
            forall|j: int| 0 <= j < i ==> 0 <= #[trigger] size@[j],
            has_zero <==> exists|j: int| 0 <= j < i && #[trigger] size@[j] == 0,
        decreases size@.len() - i,
    {
        if size[i] < 0 {
            return false;
        }
        if size[i] == 0 {
            has_zero = true;
        }
        i = i + 1;
    }
    if has_zero {
        proof {
            let at = choose|j: int| 0 <= j < size@.len() && #[trigger] size@[j] == 0;
            lemma_volume_zero(size@, at);
        }
        return count == 0;
    }
    let mut product: usize = 1;
    let mut i: usize = 0;
    while i < size.len()
        invariant
            i <= size@.len(),
            forall|j: int| 0 <= j < size@.len() ==> 1 <= #[trigger] size@[j],
            product == volume(size@.take(i as int)),
            product <= count || i == 0,
        decreases size@.len() - i,
    {
        let extent = size[i] as u128;
        proof {
            assert(size@.take(i + 1).drop_last() =~= size@.take(i as int));
            lemma_volume_grows(size@, i + 1);
            assert(product * extent <= 0xffff_ffff_ffff_ffff * 0x7fff_ffff_ffff_ffff)
                by (nonlinear_arith)
                requires
                    0 <= product <= 0xffff_ffff_ffff_ffff,
                    0 <= extent <= 0x7fff_ffff_ffff_ffff,
            ;
        }
        let next = product as u128 * extent;
        if next > count as u128 {
            return false;
        }
        product = next as usize;
        i = i + 1;
    }
    assert(size@.take(i as int) =~= size@);
    product == count
}

/// Returns a copy of a shape.
pub fn copy_shape(size: &[i64]) -> (copy: Vec<i64>)
    ensures
        copy@ == size@,
{
    let mut copy: Vec<i64> = Vec::new();
    let mut i: usize = 0;
    while i < size.len()
        invariant
            i <= size@.len(),
            copy@ == size@.take(i as int),
        decreases size@.len() - i,
    {
        copy.push(size[i]);
        assert(size@.take(i + 1) =~= size@.take(i as int).push(size@[i as int]));
        i = i + 1;
    }
    assert(size@.take(i as int) =~= size@);
    copy
}

} // verus!
