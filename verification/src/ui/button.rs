use vstd::prelude::*;

use crate::immutable::Im;

verus! {

/// A button of a mouse.
#[derive(Debug, Clone, Copy, PartialEq, Eq, Structural)]
pub enum MouseButton {
    Main,
    Auxiliary,
    Secondary,
}

/// What can happen to a button's state.
#[derive(Debug, Clone, Copy, PartialEq, Eq, Structural)]
pub enum ButtonAction {
    Disable,
    Enable,
    Toggle,
}

/// The state of a button.
pub struct ButtonState {
    pub disabled: Im<bool>,
    _immutable: (),
}

/// The attributes that a button shows.
pub struct ButtonAttrs {
    pub tabindex: Im<i32>,
    pub disabled: Im<bool>,
    role: Im<&'static str>,
    _immutable: (),
}

impl ButtonAttrs {
    /// The attributes of a button with the given tab index and state: its role
    /// is `button`.
    pub fn new(tabindex: i32, disabled: bool) -> (a: Self)
        ensures
            a.tabindex_value() == tabindex,
            a.is_disabled() == disabled,
            a.role_text() == "button"@,
    {
        ButtonAttrs {
            tabindex: Im::new(tabindex),
            disabled: Im::new(disabled),
            role: Im::new("button"),
            _immutable: (),
        }
    }

    /// The tab index.
    pub closed spec fn tabindex_value(&self) -> i32 {
        self.tabindex.value()
    }

    /// Whether the button is disabled.
    pub closed spec fn is_disabled(&self) -> bool {
        self.disabled.value()
    }

    /// The role's text.
    pub closed spec fn role_text(&self) -> Seq<char> {
        self.role.value()@
    }

    /// The role of the element.
    pub fn role(&self) -> (r: &'static str)
        ensures
            r@ == self.role_text(),
    {
        *self.role
    }
}

impl ButtonState {
    /// Whether the button is disabled.
    pub closed spec fn is_disabled(&self) -> bool {
        self.disabled.value()
    }
}

impl Default for ButtonState {
    fn default() -> (s: Self)
        ensures
            s.is_disabled() == false,
    {
        ButtonState { disabled: Im::new(false), _immutable: () }
    }
}

/// The light under a tool button.
#[derive(Debug, Clone, Copy, PartialEq, Eq, Structural)]
pub enum Indicator {
    On,
    Off,
    Disabled,
}

/// The colour classes of an indicator light.
pub open spec fn indicator_classes(indicator: Indicator) -> Seq<char> {
    match indicator {
        Indicator::On => "bg-green-500 shadow-green-500/50"@,
        Indicator::Off => "bg-red-500 shadow-red-500/50"@,
        Indicator::Disabled => "bg-gray-500 shadow-gray-500/50"@,
    }
}

impl Indicator {
    /// Whether a tool button showing this indicator (`On` when it shows none)
    /// is disabled: exactly when the indicator is `Disabled`.
    pub fn disables(indicator: Option<Indicator>) -> (d: bool)
        ensures
            d == (indicator == Some(Indicator::Disabled)),
    {
        match indicator {
            Some(Indicator::Disabled) => true,
            _ => false,
        }
    }

    /// The colour classes of the light.
    pub fn classes(&self) -> (c: &'static str)
        ensures
            c@ == indicator_classes(*self),
    {
        match self {
            Indicator::On => "bg-green-500 shadow-green-500/50",
            Indicator::Off => "bg-red-500 shadow-red-500/50",
            Indicator::Disabled => "bg-gray-500 shadow-gray-500/50",
        }
    }
}

/// Whether a button is disabled after `action`, when it was `disabled` before.
pub open spec fn disabled_after(disabled: bool, action: ButtonAction) -> bool {
    match action {
        ButtonAction::Disable => true,
        ButtonAction::Enable => false,
        ButtonAction::Toggle => !disabled,
    }
}

/// The state after `action`: disabled after `Disable`, enabled after
/// `Enable`, and switched after `Toggle`.
pub fn reduce_button(state: &ButtonState, action: ButtonAction) -> (s: ButtonState)
    ensures
        s.is_disabled() == disabled_after(state.is_disabled(), action),
{
    match action {
        ButtonAction::Disable => ButtonState { disabled: Im::new(true), ..*state },
        ButtonAction::Enable => ButtonState { disabled: Im::new(false), ..*state },
        ButtonAction::Toggle => ButtonState { disabled: Im::new(!*state.disabled), ..*state },
    }
}

/// Toggling a button twice gives back its state; disabling or enabling
/// twice is the same as doing it once, and the last of the two decides.
pub proof fn law_button_actions(disabled: bool, first: ButtonAction, second: ButtonAction)
    ensures
        disabled_after(disabled_after(disabled, ButtonAction::Toggle), ButtonAction::Toggle)
            == disabled,
        second != ButtonAction::Toggle ==> disabled_after(disabled_after(disabled, first), second)
            == disabled_after(disabled, second),
{
}

} // verus!
