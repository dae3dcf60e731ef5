//! The shape of a byte request: how many bytes, and aligned to what.

use crate::pow2::{is_power_of_two, lemma_pow2_gap, lemma_pow2_positive, lemma_pow2_top};
use crate::{AllocError, AllocResult};
use vstd::arithmetic::power2::is_pow2;
use vstd::prelude::*;

verus! {

/// Whether `size` and `align` describe a request: the alignment is a power of
/// two, and the size, rounded up to the alignment, does not pass `isize::MAX`.
pub open spec fn valid_layout(size: int, align: int) -> bool {
    is_pow2(align) && 0 <= size <= isize::MAX - (align - 1)
}

/// A byte request: `size` bytes at an address that is a multiple of `align`.
#[derive(Clone, Copy, Debug)]
pub struct Layout {
    size: usize,
    align: usize,
}

impl Layout {
    /// Every `Layout` describes a request.
    #[verifier::type_invariant]
    pub open spec fn well_formed(self) -> bool {
        valid_layout(self.spec_size() as int, self.spec_align() as int)
    }

    /// The number of bytes asked for.
    pub closed spec fn spec_size(&self) -> usize {
        self.size
    }

    /// The alignment asked for.
    pub closed spec fn spec_align(&self) -> usize {
        self.align
    }

    /// The request for `size` bytes aligned to `align`, if the two describe
    /// one; `InvalidParam` if they do not.
    pub fn from_size_align(size: usize, align: usize) -> (r: AllocResult<Layout>)
        ensures
            valid_layout(size as int, align as int) ==> r is Ok,
            !valid_layout(size as int, align as int) ==> r == Err::<Layout, AllocError>(
                AllocError::InvalidParam,
            ),
            r matches Ok(layout) ==> layout.size() == size && layout.align() == align,
    {
        if !is_power_of_two(align) {
            return Err(AllocError::InvalidParam);
        }
        proof {
            lemma_pow2_top();
            lemma_pow2_positive(align as int);
            if align > isize::MAX + 1 {
                lemma_pow2_gap(isize::MAX + 1, align as int);
            }
        }
        if size > (isize::MAX as usize) - (align - 1) {
            return Err(AllocError::InvalidParam);
        }
        Ok(Layout { size, align })
    }

    /// The number of bytes asked for.
    #[verifier::when_used_as_spec(spec_size)]
    pub fn size(&self) -> (r: usize)
        ensures
            r == self.size(),
            self.well_formed(),
    {
        proof {
            use_type_invariant(self);
        }
        self.size
    }

    /// The alignment asked for, a power of two.
    #[verifier::when_used_as_spec(spec_align)]
    pub fn align(&self) -> (r: usize)
        ensures
            r == self.align(),
            self.well_formed(),
    {
        proof {
            use_type_invariant(self);
        }
        self.align
    }
}

} // verus!
