//! The store builder: a pure factory that maps a catalog entry to a fresh,
//! empty point store of that entry's exact dimensionality.

use crate::store::VecConstellation;
use crate::SupportedSize;
use vstd::prelude::*;

verus! {

/// Builds point stores for one entry of the supported-dimensionality catalog.
pub struct ConstellationBuilder {
    pub size: SupportedSize,
}

impl ConstellationBuilder {
    /// The catalog entry this builder builds stores for.
    pub open spec fn spec_size(self) -> SupportedSize {
        self.size
    }

    pub fn new(size: SupportedSize) -> (b: Self)
        ensures
            b.spec_size() == size,
    {
        ConstellationBuilder { size }
    }

    /// A fresh, empty store whose dimensionality is exactly the one the
    /// builder's catalog entry stands for. The match over the catalog is
    /// exhaustive: every supported dimensionality maps to a store and nothing
    /// else does.
    pub fn build(&self) -> (c: VecConstellation)
        ensures
            c.wf(),
            c.spec_dim() == self.spec_size().spec_dimensions(),
            c.spec_points() == Seq::<Seq<u32>>::empty(),
    {
        match self.size {
            SupportedSize::D2 => VecConstellation::new(2),
            SupportedSize::D6 => VecConstellation::new(6),
            SupportedSize::D16 => VecConstellation::new(16),
            SupportedSize::D32 => VecConstellation::new(32),
            SupportedSize::D64 => VecConstellation::new(64),
            SupportedSize::D128 => VecConstellation::new(128),
        }
    }
}

impl From<SupportedSize> for ConstellationBuilder {
    fn from(size: SupportedSize) -> (b: ConstellationBuilder) {
        ConstellationBuilder::new(size)
    }
}

impl vstd::std_specs::convert::FromSpecImpl<SupportedSize> for ConstellationBuilder {
    open spec fn obeys_from_spec() -> bool {
        true
    }

    open spec fn from_spec(size: SupportedSize) -> ConstellationBuilder {
        ConstellationBuilder { size }
    }
}

} // verus!
