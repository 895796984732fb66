use vstd::prelude::*;

use crate::immutable::Im;
use crate::matrix::option_cloned;
use vstd::std_specs::cmp::PartialEqSpec;

verus! {

/// The state of a select box: the selected item, if any, the items that can be
/// selected, and whether the box is open.
pub struct SelectState<T> {
    pub selected: Option<T>,
    pub items: Vec<T>,
    pub opened: bool,
}

/// What can happen to a select box.
pub enum SelectAction<T> {
    /// Select an item; ignored unless the box is open and holds the item.
    Select(T),
    /// Clear the selection; ignored unless the box is open.
    Unselect,
    Open,
    Close,
}

/// The attributes that a select box shows.
#[derive(Debug, PartialEq)]
pub struct SelectAttrs<T> {
    pub selected: Im<Option<T>>,
    pub items: Im<Vec<T>>,
    pub opened: Im<bool>,
    _immutable: (),
}

/// `items` holds an item equal to `v`, by the items' `==`.
pub open spec fn holds_item<T: PartialEq>(items: Seq<T>, v: T) -> bool {
    exists|i: int| 0 <= i < items.len() && #[trigger] items[i].eq_spec(&v)
}

/// Whether a select box is open after `action`, when it was `opened` before.
pub open spec fn opened_after<T>(opened: bool, action: SelectAction<T>) -> bool {
    match action {
        SelectAction::Open => true,
        SelectAction::Close => false,
        _ => opened,
    }
}

/// The selection after `action`, for a box that was `opened` before, holds
/// `items` and had `selected`.
pub open spec fn selected_after<T: PartialEq>(
    opened: bool,
    items: Seq<T>,
    selected: Option<T>,
    action: SelectAction<T>,
) -> Option<T> {
    match action {
        SelectAction::Select(v) => if opened && holds_item(items, v) {
            Some(v)
        } else {
            selected
        },
        SelectAction::Unselect => if opened {
            None
        } else {
            selected
        },
        _ => selected,
    }
}

/// The selection is `None` or an item of the box.
pub open spec fn selection_listed<T: PartialEq>(items: Seq<T>, selected: Option<T>) -> bool {
    match selected {
        Some(v) => holds_item(items, v),
        None => true,
    }
}

/// A selection made while the box is open is always one of its items, so a
/// box whose selection is listed keeps it listed whatever happens; and a
/// closed box ignores selecting and unselecting.
pub proof fn law_select_keeps_selection_listed<T: PartialEq>(
    opened: bool,
    items: Seq<T>,
    selected: Option<T>,
    action: SelectAction<T>,
)
    ensures
        selection_listed(items, selected) ==> selection_listed(
            items,
            selected_after(opened, items, selected, action),
        ),
        !opened ==> selected_after(opened, items, selected, action) == selected,
        !opened_after(opened, SelectAction::<T>::Close),
        opened_after(opened, SelectAction::<T>::Open),
{
}

fn contains_item<T: PartialEq>(items: &Vec<T>, v: &T) -> (b: bool)
    ensures
        T::obeys_eq_spec() ==> b == holds_item(items@, *v),
{
    let mut i: usize = 0;
    while i < items.len()
        invariant
            i <= items@.len(),
            T::obeys_eq_spec() ==> forall|j: int| 0 <= j < i ==> !(#[trigger] items@[j]).eq_spec(v),
        decreases items@.len() - i,
    {
        if items[i] == *v {
            return true;
        }
        i = i + 1;
    }
    false
}

/// The state after `action`. Opening and closing set whether the box is
/// open; while it is closed, selecting and unselecting change nothing; while
/// it is open, unselecting clears the selection and selecting an item that the
/// box holds makes it the selection. The items never change. Whether the box
/// holds an item is decided by the items' `==`; where that `==` is not known to
/// follow its specification, a selection still happens only in an open box and
/// only of the item asked for.
pub fn reduce_select<T: PartialEq>(state: SelectState<T>, action: SelectAction<T>) -> (r:
    SelectState<T>)
    ensures
        r.items@ == state.items@,
        r.opened == opened_after(state.opened, action),
        !(action is Select) ==> r.selected == selected_after(
            state.opened,
            state.items@,
            state.selected,
            action,
        ),
        action is Select && T::obeys_eq_spec() ==> r.selected == selected_after(
            state.opened,
            state.items@,
            state.selected,
            action,
        ),
        action matches SelectAction::Select(v) ==> (r.selected == state.selected || (
        state.opened && r.selected == Some(v))),
{
    match action {
        SelectAction::Open => SelectState { opened: true, ..state },
        SelectAction::Close => SelectState { opened: false, ..state },
        SelectAction::Unselect => {
            if !state.opened {
                return state;
            }
            SelectState { selected: None, ..state }
        },
        SelectAction::Select(v) => {
            if !state.opened {
                return state;
            }
            if !contains_item(&state.items, &v) {
                return state;
            }
            SelectState { selected: Some(v), ..state }
        },
    }
}

/// What the user does to a select box.
pub enum SelectBoxEvent {
    /// A click on the button that shows the selection.
    Toggle,
    /// A press on the row at this position of the open list.
    Press(usize),
    /// The focus left the box.
    FocusOut,
}

/// One step of a select box: a click on its button closes an open box and
/// opens a closed one; pressing a row selects the item of that row, when there
/// is one, as `Select` does, and then closes the box; losing the focus closes
/// the box. The items never change.
pub fn select_box_step<T: PartialEq + Clone>(state: SelectState<T>, event: SelectBoxEvent) -> (r: SelectState<T>)
    ensures
        r.items@ == state.items@,
        match event {
            SelectBoxEvent::Toggle => r.opened == !state.opened && r.selected == state.selected,
            SelectBoxEvent::FocusOut => !r.opened && r.selected == state.selected,
            SelectBoxEvent::Press(i) => {
                &&& !r.opened
                &&& i >= state.items@.len() ==> r.selected == state.selected
                &&& i < state.items@.len() ==> exists|c: T| {
                    &&& cloned(state.items@[i as int], c)
                    &&& (r.selected == state.selected || (state.opened && r.selected == Some(c)))
                    &&& T::obeys_eq_spec() ==> r.selected == selected_after(
                        state.opened,
                        state.items@,
                        state.selected,
                        SelectAction::Select(c),
                    )
                }
            },
        },
{
    match event {
        SelectBoxEvent::Toggle => {
            if state.opened {
                reduce_select(state, SelectAction::Close)
            } else {
                reduce_select(state, SelectAction::Open)
            }
        },
        SelectBoxEvent::FocusOut => reduce_select(state, SelectAction::Close),
        SelectBoxEvent::Press(i) => {
            if i < state.items.len() {
                let c = state.items[i].clone();
                let ghost cg = c;
                let ghost before = state;
                let selected = reduce_select(state, SelectAction::Select(c));
                let r = reduce_select(selected, SelectAction::Close);
                assert(cloned(before.items@[i as int], cg));
                r
            } else {
                reduce_select(state, SelectAction::Close)
            }
        },
    }
}

impl<T: Clone> SelectState<T> {
    /// A closed select box holding copies of `items`, in order, and the
    /// `initial` selection.
    pub fn new(items: &[T], initial: Option<T>) -> (s: SelectState<T>)
        ensures
            !s.opened,
            s.selected == initial,
            s.items@.len() == items@.len(),
            forall|i: int| 0 <= i < items@.len() ==> cloned(items@[i], #[trigger] s.items@[i]),
    {
        let mut copies: Vec<T> = Vec::new();
        let mut i: usize = 0;
        while i < items.len()
            invariant
                i <= items@.len(),
                copies@.len() == i,
                forall|k: int| 0 <= k < i ==> cloned(items@[k], #[trigger] copies@[k]),
            decreases items@.len() - i,
        {
            copies.push(items[i].clone());
            i = i + 1;
        }
        SelectState { selected: initial, items: copies, opened: false }
    }

    /// The attributes that show this state: copies of the selection, the
    /// items and whether the box is open.
    pub fn attrs(&self) -> (a: SelectAttrs<T>)
        ensures
            a.opened_value() == self.opened,
            option_cloned(self.selected, a.selected_value()),
            a.items_value().len() == self.items@.len(),
            forall|i: int| 0 <= i < self.items@.len() ==> cloned(self.items@[i], #[trigger] a.items_value()[i]),
    {
        SelectAttrs {
            selected: Im::new(self.selected.clone()),
            items: Im::new(self.items.clone()),
            opened: Im::new(self.opened),
            _immutable: (),
        }
    }
}

impl<T> SelectAttrs<T> {
    /// Whether the box is open.
    pub closed spec fn opened_value(&self) -> bool {
        self.opened.value()
    }

    /// The selection shown.
    pub closed spec fn selected_value(&self) -> Option<T> {
        self.selected.value()
    }

    /// The items shown.
    pub closed spec fn items_value(&self) -> Seq<T> {
        self.items.value()@
    }
}

} // verus!
