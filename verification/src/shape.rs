//! Tensor shapes and the number of elements they span.

use vstd::prelude::*;

verus! {

/// The number of elements of a tensor whose dimension sizes are `shape`:
/// their product, which is 1 for a tensor without dimensions.
pub open spec fn spec_element_count(shape: Seq<usize>) -> nat
    decreases shape.len(),
{
    if shape.len() == 0 {
        1
    } else {
        spec_element_count(shape.drop_last()) * (shape.last() as nat)
    }
}

/// A shape with a dimension of size zero has no elements.
pub proof fn lemma_zero_dimension(shape: Seq<usize>, index: int)
    requires
        0 <= index < shape.len(),
        shape[index] == 0,
    ensures
        spec_element_count(shape) == 0,
    decreases shape.len(),
{
    let leading = spec_element_count(shape.drop_last());
    if index < shape.len() - 1 {
        lemma_zero_dimension(shape.drop_last(), index);
    }
    assert(leading * (shape.last() as nat) == 0) by (nonlinear_arith)
        requires
            leading == 0 || shape.last() == 0,
    ;
}

/// Without a dimension of size zero, the first `length` dimensions span no
/// more elements than the whole shape does.
pub proof fn lemma_leading_dimensions(shape: Seq<usize>, length: int)
    requires
        0 <= length <= shape.len(),
        forall|i: int| 0 <= i < shape.len() ==> shape[i] > 0,
    ensures
        spec_element_count(shape.take(length)) <= spec_element_count(shape),
    decreases shape.len(),
{
    if length == shape.len() {
        assert(shape.take(length) =~= shape);
    } else {
        let shorter = shape.drop_last();
        lemma_leading_dimensions(shorter, length);
        assert(shorter.take(length) =~= shape.take(length));
        assert(spec_element_count(shorter) <= spec_element_count(shorter) * shape.last())
            by (nonlinear_arith)
            requires
                shape.last() > 0,
        ;
    }
}

/// The number of elements of a tensor whose dimension sizes are `shape`, or
/// `None` where that number does not fit in a `usize`.
pub fn element_count(shape: &[usize]) -> (count: Option<usize>)
    ensures
        match count {
            Some(count) => count == spec_element_count(shape@),
            None => spec_element_count(shape@) > usize::MAX,
        },
{
    let mut index: usize = 0;
    while index < shape.len()
        invariant
            index <= shape.len(),
            forall|i: int| 0 <= i < index ==> shape@[i] > 0,
        decreases shape.len() - index,
    {
        if shape[index] == 0 {
            proof {
                lemma_zero_dimension(shape@, index as int);
            }
            return Some(0);
        }
        index += 1;
    }
    let mut count: usize = 1;
    let mut index: usize = 0;
    while index < shape.len()
        invariant
            index <= shape.len(),
            forall|i: int| 0 <= i < shape.len() ==> shape@[i] > 0,
            count == spec_element_count(shape@.take(index as int)),
        decreases shape.len() - index,
    {
        proof {
            assert(shape@.take(index + 1).drop_last() =~= shape@.take(index as int));
            lemma_leading_dimensions(shape@, index + 1);
        }
        match count.checked_mul(shape[index]) {
            Some(product) => {
                count = product;
            },
            None => {
                return None;
            },
        }
        index += 1;
    }
    assert(shape@.take(index as int) =~= shape@);
    Some(count)
}

} // verus!
