use vstd::prelude::*;

verus! {

pub const IF: DefinitionType = DefinitionType::If;

pub const ELSE: DefinitionType = DefinitionType::Else;

pub const THEN: DefinitionType = DefinitionType::Then;

/// A reference to a user word by name, or one of the conditional markers.
#[derive(Debug, PartialEq, Eq)]
pub enum DefinitionType {
    Name(String),
    If,
    Else,
    Then,
}

/// What a `DefinitionType` denotes, with the name as its characters.
pub enum DefinitionTypeView {
    Name(Seq<char>),
    If,
    Else,
    Then,
}

impl View for DefinitionType {
    type V = DefinitionTypeView;

    open spec fn view(&self) -> DefinitionTypeView {
        match self {
            DefinitionType::Name(n) => DefinitionTypeView::Name(n@),
            DefinitionType::If => DefinitionTypeView::If,
            DefinitionType::Else => DefinitionTypeView::Else,
            DefinitionType::Then => DefinitionTypeView::Then,
        }
    }
}

impl DefinitionType {
    pub fn name(name: String) -> (r: Self)
        ensures
            r@ == DefinitionTypeView::Name(name@),
    {
        DefinitionType::Name(name)
    }
}

} // verus!
