//! Host-supplied skills.
//!
//! Only a [`Skill`] (id, name, description) enters the context up front; the
//! [`SkillContent`] is fetched on demand.

use crate::views;
use vstd::prelude::*;

verus! {

/// A skill manifest entry (without its body).
#[derive(Debug, PartialEq, Eq)]
pub struct Skill {
    /// Stable identifier by which the body is loaded.
    pub id: String,
    /// Name shown in the system prompt.
    pub name: String,
    /// One-line description of when the skill applies.
    pub description: String,
}

/// What a [`Skill`] stands for.
#[verifier::ext_equal]
pub struct SkillView {
    /// Stable identifier by which the body is loaded.
    pub id: Seq<char>,
    /// Name shown in the system prompt.
    pub name: Seq<char>,
    /// One-line description of when the skill applies.
    pub description: Seq<char>,
}

impl View for Skill {
    type V = SkillView;

    open spec fn view(&self) -> SkillView {
        SkillView {
            id: self.id@,
            name: self.name@,
            description: self.description@,
        }
    }
}

impl Clone for Skill {
    fn clone(&self) -> (copy: Self)
        ensures
            copy@ == self@,
    {
        let copy = Skill {
            id: self.id.clone(),
            name: self.name.clone(),
            description: self.description.clone(),
        };
        copy
    }
}

/// A loaded skill body.
#[derive(Debug)]
pub struct SkillContent {
    /// The Markdown instructions.
    pub body: String,
    /// Relative paths of bundled reference files.
    pub references: Vec<String>,
}

/// What a [`SkillContent`] stands for.
#[verifier::ext_equal]
pub struct SkillContentView {
    /// The Markdown instructions.
    pub body: Seq<char>,
    /// Relative paths of bundled reference files.
    pub references: Seq<Seq<char>>,
}

impl View for SkillContent {
    type V = SkillContentView;

    open spec fn view(&self) -> SkillContentView {
        SkillContentView {
            body: self.body@,
            references: views::each(self.references@),
        }
    }
}

impl Clone for SkillContent {
    fn clone(&self) -> (copy: Self)
        ensures
            copy@ == self@,
    {
        let copy = SkillContent {
            body: self.body.clone(),
            references: self.references.clone(),
        };
        assert(copy@.references =~= self@.references);
        copy
    }
}

} // verus!
