//! Tags (GTD contexts).

use vstd::prelude::*;

use super::task::TagId;

verus! {

/// A tag. Its name is unique among tags.
#[derive(Clone, Debug)]
pub struct Tag {
    pub id: TagId,
    pub name: String,
}

impl Tag {
    /// A field-by-field copy.
    pub fn duplicate(&self) -> (r: Tag)
        ensures
            r == *self,
    {
        Tag { id: self.id, name: self.name.clone() }
    }
}

} // verus!
