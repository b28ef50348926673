use std::cell::RefCell;
use std::rc::Rc;
use ui::form::{dispatch_form_element_activate, dispatch_form_element_click, FormControl};

type Toggle = Box<dyn Fn(bool)>;
type Change = Box<dyn Fn(String)>;
type Click = Box<dyn Fn()>;

fn checkbox(checked: bool) -> FormControl {
    FormControl::Checkbox { checked, indeterminate: false }
}

fn recorder<T: 'static>() -> (Rc<RefCell<Option<T>>>, Box<dyn Fn(T)>) {
    let cell = Rc::new(RefCell::new(None));
    let c = cell.clone();
    (cell, Box::new(move |v| *c.borrow_mut() = Some(v)))
}

#[test]
fn test_checkbox_click_toggles() {
    let (toggled, h) = recorder::<bool>();
    let fired = dispatch_form_element_click(&checkbox(false), &Some(h), &None::<Change>);
    assert!(fired);
    assert_eq!(*toggled.borrow(), Some(true));
}

#[test]
fn test_checkbox_click_unchecks() {
    let (toggled, h) = recorder::<bool>();
    let fired = dispatch_form_element_click(&checkbox(true), &Some(h), &None::<Change>);
    assert!(fired);
    assert_eq!(*toggled.borrow(), Some(false));
}

#[test]
fn test_checkbox_indeterminate_becomes_checked() {
    let (toggled, h) = recorder::<bool>();
    let c = FormControl::Checkbox { checked: false, indeterminate: true };
    dispatch_form_element_click(&c, &Some(h), &None::<Change>);
    assert_eq!(*toggled.borrow(), Some(true));
}

#[test]
fn test_switch_click_toggles_on() {
    let (toggled, h) = recorder::<bool>();
    dispatch_form_element_click(&FormControl::Switch { on: false }, &Some(h), &None::<Change>);
    assert_eq!(*toggled.borrow(), Some(true));
}

#[test]
fn test_switch_click_toggles_off() {
    let (toggled, h) = recorder::<bool>();
    dispatch_form_element_click(&FormControl::Switch { on: true }, &Some(h), &None::<Change>);
    assert_eq!(*toggled.borrow(), Some(false));
}

#[test]
fn test_radio_click_fires_value() {
    let (selected, h) = recorder::<String>();
    let r = FormControl::Radio { value: "large".to_string() };
    dispatch_form_element_click(&r, &None::<Toggle>, &Some(h));
    assert_eq!(*selected.borrow(), Some("large".to_string()));
}

#[test]
fn test_checkbox_no_handler_returns_false() {
    assert!(!dispatch_form_element_click(&checkbox(false), &None::<Toggle>, &None::<Change>));
}

#[test]
fn test_container_click_returns_false() {
    assert!(!dispatch_form_element_click(&FormControl::Other, &None::<Toggle>, &None::<Change>));
}

#[test]
fn test_button_activate_fires_click() {
    let clicked = Rc::new(RefCell::new(false));
    let c = clicked.clone();
    let h: Click = Box::new(move || *c.borrow_mut() = true);
    let fired = dispatch_form_element_activate(
        &FormControl::Button,
        &Some(h),
        &None::<Toggle>,
        &None::<Change>,
    );
    assert!(fired);
    assert!(*clicked.borrow());
}

#[test]
fn test_checkbox_activate_toggles() {
    let (toggled, h) = recorder::<bool>();
    dispatch_form_element_activate(&checkbox(false), &None::<Click>, &Some(h), &None::<Change>);
    assert_eq!(*toggled.borrow(), Some(true));
}

#[test]
fn test_switch_activate_toggles() {
    let (toggled, h) = recorder::<bool>();
    let s = FormControl::Switch { on: true };
    dispatch_form_element_activate(&s, &None::<Click>, &Some(h), &None::<Change>);
    assert_eq!(*toggled.borrow(), Some(false));
}

#[test]
fn radio_with_a_toggle_handler_only_does_not_fire() {
    let (toggled, h) = recorder::<bool>();
    let r = FormControl::Radio { value: "a".to_string() };
    assert!(!dispatch_form_element_click(&r, &Some(h), &None::<Change>));
    assert_eq!(*toggled.borrow(), None);
}

#[test]
fn other_elements_and_clicked_buttons_fire_nothing() {
    let clicked = Rc::new(RefCell::new(false));
    let c = clicked.clone();
    let h: Click = Box::new(move || *c.borrow_mut() = true);
    assert!(!dispatch_form_element_activate(&FormControl::Other, &Some(h), &None::<Toggle>, &None::<Change>));
    assert!(!*clicked.borrow());
    assert!(!dispatch_form_element_click(&FormControl::Button, &None::<Toggle>, &None::<Change>));
}
