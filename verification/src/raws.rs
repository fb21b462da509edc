//! The read-only catalog of spawnable-entity templates.
//!
//! The catalog is loaded from raw data by the host; the core only indexes
//! into it by name, never parses the source data format.

use vstd::prelude::*;

verus! {

/// One spawnable item template, known to the pipeline by name alone.
pub struct Item {
    pub name: String,
}

/// One spawnable monster template, known to the pipeline by name alone.
pub struct Mob {
    pub name: String,
}

/// The raw template catalog: every spawnable item and monster name the
/// generation pipeline may emit in a spawn request.
pub struct Raws {
    pub items: Vec<Item>,
    pub mobs: Vec<Mob>,
}

impl Raws {
    /// An empty catalog.
    pub fn empty() -> (r: Raws)
        ensures
            r.items@.len() == 0,
            r.mobs@.len() == 0,
    {
        Raws { items: Vec::new(), mobs: Vec::new() }
    }

    /// Whether the catalog knows a template of the given name, item or
    /// monster.
    #[verifier::loop_isolation(false)]
    pub fn knows_name(&self, name: &str) -> (r: bool)
        ensures
            r == ((exists|i: int|
                0 <= i < self.items@.len() && (#[trigger] self.items@[i].name)@ == name@) || (
            exists|i: int|
                0 <= i < self.mobs@.len() && (#[trigger] self.mobs@[i].name)@ == name@)),
    {
        let name_owned = String::from_str(name);
        let mut i: usize = 0;
        while i < self.items.len()
            invariant
                i <= self.items@.len(),
                forall|j: int| 0 <= j < i ==> (#[trigger] self.items@[j].name)@ != name@,
            decreases self.items@.len() - i,
        {
            if self.items[i].name == name_owned {
                return true;
            }
            i = i + 1;
        }
        let mut k: usize = 0;
        while k < self.mobs.len()
            invariant
                k <= self.mobs@.len(),
                forall|j: int| 0 <= j < k ==> (#[trigger] self.mobs@[j].name)@ != name@,
                forall|j: int| 0 <= j < self.items@.len() ==> (#[trigger] self.items@[j].name)@
                    != name@,
            decreases self.mobs@.len() - k,
        {
            if self.mobs[k].name == name_owned {
                return true;
            }
            k = k + 1;
        }
        false
    }
}

} // verus!
