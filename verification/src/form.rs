//! Clicks and keyboard activation (Space/Enter) on form elements: which
//! change handler fires, and with what value.
//!
//! A check box or a switch reports its new state through its boolean change
//! handler, a radio button reports its value through its change handler,
//! and a button fires its click handler when activated from the keyboard.
use vstd::prelude::*;

verus! {

/// The form-element part of an element: what a click or an activation
/// reads of it.
#[derive(Debug, Clone)]
pub enum FormControl {
    Checkbox { checked: bool, indeterminate: bool },
    Switch { on: bool },
    Radio { value: String },
    Button,
    /// Any other kind of element.
    Other,
}

/// The new state that a click gives a check box or a switch: an
/// indeterminate check box becomes checked, anything else flips.
pub open spec fn toggled_state(control: FormControl) -> Option<bool> {
    match control {
        FormControl::Checkbox { checked, indeterminate } => Some(
            if indeterminate {
                true
            } else {
                !checked
            },
        ),
        FormControl::Switch { on } => Some(!on),
        _ => None,
    }
}

/// Whether a click on the element fires one of its handlers: a check box
/// or switch with a boolean change handler, or a radio button with a
/// change handler.
pub open spec fn click_fires(control: FormControl, has_toggle: bool, has_change: bool) -> bool {
    match control {
        FormControl::Checkbox { .. } => has_toggle,
        FormControl::Switch { .. } => has_toggle,
        FormControl::Radio { .. } => has_change,
        _ => false,
    }
}

/// The handler fired by a click was called with the value the click owes.
pub open spec fn click_delivered<B: Fn(bool), C: Fn(String)>(
    control: FormControl,
    on_toggle: Option<B>,
    on_change: Option<C>,
) -> bool {
    match control {
        FormControl::Radio { value } => exists|s: String|
            s@ == value@ && #[trigger] on_change->0.ensures((s,), ()),
        _ => on_toggle->0.ensures((toggled_state(control)->0,), ()),
    }
}

/// Handle a click on a form element. A check box or switch with a boolean
/// change handler calls it with its new state; a radio button with a
/// change handler calls it with its value. Returns whether a handler was
/// called.
pub fn dispatch_form_element_click<B: Fn(bool), C: Fn(String)>(
    control: &FormControl,
    on_toggle: &Option<B>,
    on_change: &Option<C>,
) -> (fired: bool)
    requires
        forall|v: bool| on_toggle is Some ==> #[trigger] on_toggle->0.requires((v,)),
        forall|s: String| on_change is Some ==> #[trigger] on_change->0.requires((s,)),
    ensures
        fired == click_fires(*control, on_toggle is Some, on_change is Some),
        fired ==> click_delivered(*control, *on_toggle, *on_change),
{
    match control {
        FormControl::Checkbox { checked, indeterminate } => {
            if let Some(handler) = on_toggle {
                let new_val = if *indeterminate {
                    true
                } else {
                    !*checked
                };
                handler(new_val);
                return true;
            }
        },
        FormControl::Switch { on } => {
            if let Some(handler) = on_toggle {
                handler(!*on);
                return true;
            }
        },
        FormControl::Radio { value } => {
            if let Some(handler) = on_change {
                let v = value.clone();
                handler(v);
                return true;
            }
        },
        _ => {},
    }
    false
}

/// Handle a keyboard activation of a focused form element: a button with a
/// click handler calls it; a check box, switch or radio button acts as on a
/// click. Returns whether a handler was called.
pub fn dispatch_form_element_activate<K: Fn(), B: Fn(bool), C: Fn(String)>(
    control: &FormControl,
    on_click: &Option<K>,
    on_toggle: &Option<B>,
    on_change: &Option<C>,
) -> (fired: bool)
    requires
        on_click is Some ==> on_click->0.requires(()),
        forall|v: bool| on_toggle is Some ==> #[trigger] on_toggle->0.requires((v,)),
        forall|s: String| on_change is Some ==> #[trigger] on_change->0.requires((s,)),
    ensures
        fired == match *control {
            FormControl::Button => on_click is Some,
            _ => click_fires(*control, on_toggle is Some, on_change is Some),
        },
        fired ==> match *control {
            FormControl::Button => on_click->0.ensures((), ()),
            _ => click_delivered(*control, *on_toggle, *on_change),
        },
{
    match control {
        FormControl::Button => {
            if let Some(handler) = on_click {
                handler();
                return true;
            }
            false
        },
        FormControl::Checkbox { .. } | FormControl::Switch { .. } | FormControl::Radio { .. } => {
            dispatch_form_element_click(control, on_toggle, on_change)
        },
        FormControl::Other => false,
    }
}

} // verus!
