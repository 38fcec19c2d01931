//! Projects: groups of tasks.

use vstd::prelude::*;

use crate::text::owned;

use super::task::ProjectId;

verus! {

/// A project as read from the store.
#[derive(Clone, Debug)]
pub struct Project {
    pub id: ProjectId,
    pub name: String,
    /// Optional colour for the interface (such as `#3B82F6`).
    pub color: Option<String>,
    pub archived: bool,
}

impl Project {
    /// A field-by-field copy.
    pub fn duplicate(&self) -> (r: Project)
        ensures
            r == *self,
    {
        Project {
            id: self.id,
            name: self.name.clone(),
            color: super::task::copy_opt_string(&self.color),
            archived: self.archived,
        }
    }
}

/// A draft for creating a project; the store assigns the id.
#[derive(Clone, Debug)]
pub struct NewProject {
    pub name: String,
    pub color: Option<String>,
}

impl NewProject {
    /// A draft with the given name and no colour.
    pub fn new(name: &str) -> (r: NewProject)
        ensures
            r.name@ == name@,
            r.color is None,
    {
        NewProject { name: owned(name), color: None }
    }

    /// Sets the colour.
    pub fn color(self, c: &str) -> (r: NewProject)
        ensures
            r.name == self.name,
            r.color matches Some(x) && x@ == c@,
    {
        NewProject { name: self.name, color: Some(owned(c)) }
    }
}

} // verus!
