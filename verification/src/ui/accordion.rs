use vstd::prelude::*;

use crate::immutable::Im;

verus! {

/// What can happen to an accordion.
#[derive(Debug, Clone, Copy, PartialEq, Eq, Structural)]
pub enum AccordionAction {
    Toggle,
    Open,
    Close,
}

/// Whether an accordion is extracted after `action`, when it was `extracted`
/// before.
pub open spec fn extracted_after(extracted: bool, action: AccordionAction) -> bool {
    match action {
        AccordionAction::Toggle => !extracted,
        AccordionAction::Open => true,
        AccordionAction::Close => false,
    }
}

/// Whether the accordion is extracted after `action`.
pub fn reduce_accordion(extracted: bool, action: AccordionAction) -> (r: bool)
    ensures
        r == extracted_after(extracted, action),
{
    match action {
        AccordionAction::Toggle => !extracted,
        AccordionAction::Open => true,
        AccordionAction::Close => false,
    }
}

/// The attributes that an accordion shows.
#[derive(Debug, PartialEq)]
pub struct AccordionAttrs {
    pub extracted: Im<bool>,
    pub role: Im<&'static str>,
    _immutable: (),
}

impl AccordionAttrs {
    /// Whether the accordion is extracted.
    pub closed spec fn is_extracted(&self) -> bool {
        self.extracted.value()
    }

    /// The role's text.
    pub closed spec fn role_text(&self) -> Seq<char> {
        self.role.value()@
    }

    /// The attributes of an accordion in the given state: its role is `button`.
    pub fn new(extracted: bool) -> (a: Self)
        ensures
            a.is_extracted() == extracted,
            a.role_text() == "button"@,
    {
        AccordionAttrs { extracted: Im::new(extracted), role: Im::new("button"), _immutable: () }
    }

    /// The classes of the content under the accordion: shown in an indented
    /// column when extracted, hidden otherwise.
    pub fn content_class(&self) -> (c: &'static str)
        ensures
            self.is_extracted() ==> c@ == "flex flex-col pl-4 border-l border-white/10 mt-1"@,
            !self.is_extracted() ==> c@ == "hidden"@,
    {
        if *self.extracted {
            "flex flex-col pl-4 border-l border-white/10 mt-1"
        } else {
            "hidden"
        }
    }
}

/// Toggling an accordion twice gives back its state; opening or closing
/// does not depend on the state before.
pub proof fn law_accordion_actions(extracted: bool, other: bool)
    ensures
        extracted_after(extracted_after(extracted, AccordionAction::Toggle), AccordionAction::Toggle)
            == extracted,
        extracted_after(extracted, AccordionAction::Open) == extracted_after(
            other,
            AccordionAction::Open,
        ),
        extracted_after(extracted, AccordionAction::Close) == extracted_after(
            other,
            AccordionAction::Close,
        ),
{
}

} // verus!
