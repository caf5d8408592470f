//! An in-memory store of fixed-dimensional numeric points, organized into
//! named collections, with radius queries over them.
//!
//! Coordinates are carried as opaque 32-bit words: the bit patterns of the
//! caller's single-precision values. The store never interprets them; all
//! arithmetic on them (point construction, squared distance) is the business
//! of a linear-algebra collaborator outside this crate, which reports its
//! verdicts back to the query engine as plain values.

use vstd::prelude::*;

pub mod builder;
pub mod sky;
pub mod store;

verus! {

/// The closed catalog of point lengths (dimensionalities) the system accepts.
/// Any vector whose length is not in this catalog is rejected at the boundary.
#[derive(Clone, Copy, Debug, PartialEq, Eq, Structural)]
pub enum SupportedSize {
    D2,
    D6,
    D16,
    D32,
    D64,
    D128,
}

/// The point lengths that the catalog contains.
pub open spec fn spec_supported(len: nat) -> bool {
    len == 2 || len == 6 || len == 16 || len == 32 || len == 64 || len == 128
}

impl SupportedSize {
    /// The exact point length that this catalog entry stands for.
    pub open spec fn spec_dimensions(self) -> nat {
        match self {
            SupportedSize::D2 => 2,
            SupportedSize::D6 => 6,
            SupportedSize::D16 => 16,
            SupportedSize::D32 => 32,
            SupportedSize::D64 => 64,
            SupportedSize::D128 => 128,
        }
    }

    /// The dimensionality of points accepted under this catalog entry.
    pub fn dimensions(self) -> (d: usize)
        ensures
            d == self.spec_dimensions(),
    {
        match self {
            SupportedSize::D2 => 2,
            SupportedSize::D6 => 6,
            SupportedSize::D16 => 16,
            SupportedSize::D32 => 32,
            SupportedSize::D64 => 64,
            SupportedSize::D128 => 128,
        }
    }

    /// Every length the catalog accepts, in ascending order: what a boundary
    /// error can show a caller whose vector was rejected.
    pub fn possible_choices() -> (r: Vec<usize>)
        ensures
            r@ == seq![2usize, 6, 16, 32, 64, 128],
            forall|len: usize| spec_supported(len as nat) <==> r@.contains(len),
    {
        let mut r: Vec<usize> = Vec::new();
        r.push(2);
        r.push(6);
        r.push(16);
        r.push(32);
        r.push(64);
        r.push(128);
        proof {
            assert(r@ =~= seq![2usize, 6, 16, 32, 64, 128]);
            assert forall|len: usize| spec_supported(len as nat) <==> r@.contains(len) by {
                if spec_supported(len as nat) {
                    if len == 2 {
                        assert(r@[0] == len);
                    } else if len == 6 {
                        assert(r@[1] == len);
                    } else if len == 16 {
                        assert(r@[2] == len);
                    } else if len == 32 {
                        assert(r@[3] == len);
                    } else {
                        assert(r@[5] == len || r@[4] == len);
                    }
                }
            }
        }
        r
    }

    /// Resolves a vector length against the catalog: `Some` exactly when the
    /// length is supported, and then the entry stands for that very length.
    pub fn try_from_len(len: usize) -> (r: Option<SupportedSize>)
        ensures
            r is Some <==> spec_supported(len as nat),
            r is Some ==> r->Some_0.spec_dimensions() == len as nat,
    {
        if len == 2 {
            Some(SupportedSize::D2)
        } else if len == 6 {
            Some(SupportedSize::D6)
        } else if len == 16 {
            Some(SupportedSize::D16)
        } else if len == 32 {
            Some(SupportedSize::D32)
        } else if len == 64 {
            Some(SupportedSize::D64)
        } else if len == 128 {
            Some(SupportedSize::D128)
        } else {
            None
        }
    }
}

} // verus!
