//! The alias record.

use vstd::prelude::*;

verus! {

/// One alias: a short name and the command that it stands for.
#[derive(Debug, Clone, PartialEq)]
pub struct Alias {
    pub name: String,
    pub expanded: String,
}

/// An alias as the contracts see it: its two texts as character sequences.
pub ghost struct AliasView {
    pub name: Seq<char>,
    pub expanded: Seq<char>,
}

impl AliasView {
    /// Neither the name nor the expansion is empty.
    pub open spec fn is_valid(self) -> bool {
        self.name.len() > 0 && self.expanded.len() > 0
    }
}

impl View for Alias {
    type V = AliasView;

    open spec fn view(&self) -> AliasView {
        AliasView { name: self.name@, expanded: self.expanded@ }
    }
}

impl DeepView for Alias {
    type V = AliasView;

    open spec fn deep_view(&self) -> AliasView {
        self@
    }
}

} // verus!
