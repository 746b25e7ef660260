//! User address spaces.
use vstd::prelude::*;
use std::collections::BTreeMap;
use crate::kalloc::pagealloc::PageGurd;
use crate::kalloc::pages::{VAddress, PAddress};
use super::Section;

verus! {

/// A block of user mappings of one kind of section.
pub struct MapBlock {
    pub section: Section,
    va_pa: BTreeMap<VAddress, PAddress>,
}

/// A user address space: its root table and its blocks of mappings.
pub struct Uvm {
    root: PageGurd,
    paddr: Vec<MapBlock>,
}

} // verus!
