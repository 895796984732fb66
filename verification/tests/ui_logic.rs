use solver::ui::accordion::{reduce_accordion, AccordionAction, AccordionAttrs};
use solver::ui::button::{reduce_button, ButtonAction, ButtonAttrs, ButtonState, Indicator};
use solver::ui::icon::{IconSize, IconType};
use solver::ui::select::{reduce_select, SelectAction, SelectState};
use solver::ui::types::{CommandId, PerspectiveError, PerspectiveKind};

#[test]
fn test_new_sets_role_as_button() {
    let button = ButtonAttrs::new(0, false);
    assert_eq!(button.role(), "button");
}

#[test]
fn button_attrs_keep_the_tab_index() {
    for tabindex in [3, 0, -1] {
        let button = ButtonAttrs::new(tabindex, false);
        assert_eq!(*button.tabindex, tabindex);
        assert!(!*button.disabled);
    }
}

#[test]
fn button_actions_set_and_switch_the_disabled_flag() {
    let state = ButtonState::default();
    assert!(!*state.disabled);
    let disabled = reduce_button(&state, ButtonAction::Disable);
    assert!(*disabled.disabled);
    let again = reduce_button(&disabled, ButtonAction::Disable);
    assert!(*again.disabled);
    let enabled = reduce_button(&again, ButtonAction::Enable);
    assert!(!*enabled.disabled);
    let toggled = reduce_button(&enabled, ButtonAction::Toggle);
    assert!(*toggled.disabled);
    let back = reduce_button(&toggled, ButtonAction::Toggle);
    assert!(!*back.disabled);
}

#[test]
fn accordion_actions_open_close_and_toggle() {
    assert!(reduce_accordion(false, AccordionAction::Toggle));
    assert!(!reduce_accordion(true, AccordionAction::Toggle));
    assert!(reduce_accordion(false, AccordionAction::Open));
    assert!(reduce_accordion(true, AccordionAction::Open));
    assert!(!reduce_accordion(true, AccordionAction::Close));
    assert!(!reduce_accordion(false, AccordionAction::Close));
    let attrs = AccordionAttrs::new(true);
    assert!(*attrs.extracted);
    assert_eq!(*attrs.role, "button");
}

fn select_state(opened: bool, selected: Option<u32>) -> SelectState<u32> {
    SelectState { selected, items: vec![1, 2, 3], opened }
}

#[test]
fn select_changes_the_selection_only_while_opened() {
    let closed = reduce_select(select_state(false, None), SelectAction::Select(2));
    assert_eq!(closed.selected, None);

    let opened = reduce_select(select_state(false, None), SelectAction::Open);
    assert!(opened.opened);
    let chosen = reduce_select(opened, SelectAction::Select(2));
    assert_eq!(chosen.selected, Some(2));
    assert_eq!(chosen.items, vec![1, 2, 3]);

    let unknown = reduce_select(chosen, SelectAction::Select(9));
    assert_eq!(unknown.selected, Some(2));

    let cleared = reduce_select(unknown, SelectAction::Unselect);
    assert_eq!(cleared.selected, None);

    let shut = reduce_select(select_state(true, Some(3)), SelectAction::Close);
    assert!(!shut.opened);
    let kept = reduce_select(shut, SelectAction::Unselect);
    assert_eq!(kept.selected, Some(3));
}

#[test]
fn select_attrs_copy_the_state() {
    let attrs = select_state(true, Some(1)).attrs();
    assert!(*attrs.opened);
    assert_eq!(*attrs.selected, Some(1));
    assert_eq!(*attrs.items, vec![1, 2, 3]);
}

#[test]
fn icon_sizes_and_urls() {
    assert_eq!(IconSize::Small.to_class(), "w-9 h-9");
    assert_eq!(IconSize::Medium.to_class(), "w-12 h-12");
    assert_eq!(IconSize::Large.to_class(), "w-16 h-16");
    let icon = IconType::GridSnap(IconSize::Medium);
    assert_eq!(icon.to_url(), "/assets/icons/grid-snap.svg");
    assert_eq!(icon.size(), IconSize::Medium);
    assert_eq!(icon.size_class(), "inline-block shrink-0 w-12 h-12");
    assert_eq!(IconType::ZoomFit(IconSize::Large).to_url(), "/assets/icons/zoom-fit.svg");
}

#[test]
fn perspective_names_read_back() {
    assert_eq!(PerspectiveKind::from_string("Feature"), Ok(PerspectiveKind::Feature));
    assert_eq!(PerspectiveKind::from_string("Sketch"), Ok(PerspectiveKind::Sketch));
    assert_eq!(
        PerspectiveKind::from_string("sketch"),
        Err(PerspectiveError::Invalid("sketch".to_string()))
    );
    for kind in [PerspectiveKind::Feature, PerspectiveKind::Sketch] {
        assert_eq!(PerspectiveKind::from_string(kind.as_str()), Ok(kind));
        assert_eq!(kind.as_str().parse::<PerspectiveKind>(), Ok(kind));
    }
    assert_eq!(PerspectiveKind::default(), PerspectiveKind::Feature);
}

#[test]
fn command_ids_keep_their_number() {
    let id = CommandId::new(17);
    assert_eq!(id.value(), 17);
    assert_eq!(id, CommandId::new(17));
    assert_ne!(id, CommandId::new(18));
}

#[test]
fn tool_button_mask_style_names_the_icon() {
    assert_eq!(
        IconType::Cube(IconSize::Small).mask_style(),
        "mask-image: url(/assets/icons/cube.svg); mask-size: contain; mask-repeat: no-repeat; mask-position: center;"
    );
}

#[test]
fn indicators_disable_and_colour_the_button() {
    assert!(Indicator::disables(Some(Indicator::Disabled)));
    assert!(!Indicator::disables(Some(Indicator::On)));
    assert!(!Indicator::disables(Some(Indicator::Off)));
    assert!(!Indicator::disables(None));
    assert_eq!(Indicator::On.classes(), "bg-green-500 shadow-green-500/50");
    assert_eq!(Indicator::Off.classes(), "bg-red-500 shadow-red-500/50");
    assert_eq!(Indicator::Disabled.classes(), "bg-gray-500 shadow-gray-500/50");
}

#[test]
fn accordion_content_is_hidden_until_extracted() {
    assert_eq!(AccordionAttrs::new(false).content_class(), "hidden");
    assert_eq!(
        AccordionAttrs::new(true).content_class(),
        "flex flex-col pl-4 border-l border-white/10 mt-1"
    );
}

use solver::ui::select::{select_box_step, SelectBoxEvent};

#[test]
fn select_box_starts_closed_with_the_initial_selection() {
    let items = vec!["apple".to_string(), "pear".to_string()];
    let state = SelectState::new(&items, Some("pear".to_string()));
    assert!(!state.opened);
    assert_eq!(state.selected, Some("pear".to_string()));
    assert_eq!(state.items, items);
    let empty: SelectState<String> = SelectState::new(&[], None);
    assert!(empty.items.is_empty());
    assert_eq!(empty.selected, None);
}

#[test]
fn select_with_string_items() {
    let items = vec!["a".to_string(), "b".to_string()];
    let state = SelectState::new(&items, None);
    let open = reduce_select(state, SelectAction::Open);
    let chosen = reduce_select(open, SelectAction::Select("b".to_string()));
    assert_eq!(chosen.selected, Some("b".to_string()));
    let ignored = reduce_select(chosen, SelectAction::Select("c".to_string()));
    assert_eq!(ignored.selected, Some("b".to_string()));
}

#[test]
fn select_box_steps_toggle_press_and_lose_focus() {
    let state = SelectState::new(&[10u32, 20, 30], None);
    let opened = select_box_step(state, SelectBoxEvent::Toggle);
    assert!(opened.opened);
    let pressed = select_box_step(opened, SelectBoxEvent::Press(1));
    assert!(!pressed.opened);
    assert_eq!(pressed.selected, Some(20));
    let closed_press = select_box_step(pressed, SelectBoxEvent::Press(2));
    assert_eq!(closed_press.selected, Some(20));
    let reopened = select_box_step(closed_press, SelectBoxEvent::Toggle);
    let out_of_range = select_box_step(reopened, SelectBoxEvent::Press(7));
    assert!(!out_of_range.opened);
    assert_eq!(out_of_range.selected, Some(20));
    let again = select_box_step(out_of_range, SelectBoxEvent::Toggle);
    let shut = select_box_step(again, SelectBoxEvent::Toggle);
    assert!(!shut.opened);
    let focus = select_box_step(select_box_step(shut, SelectBoxEvent::Toggle), SelectBoxEvent::FocusOut);
    assert!(!focus.opened);
    assert_eq!(focus.items, vec![10, 20, 30]);
}
