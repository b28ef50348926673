use ui::input::{apply_event_result, keysym_to_key_value, EventResult, KeyValue};
use ui::style::{BackgroundClip, BackgroundOrigin};

#[test]
fn keysyms_translate_to_key_values() {
    assert_eq!(keysym_to_key_value(0xff0d), KeyValue::Enter);
    assert_eq!(keysym_to_key_value(0x20), KeyValue::Space);
    assert_eq!(keysym_to_key_value(0xffbe), KeyValue::F(1));
    assert_eq!(keysym_to_key_value(0xffd5), KeyValue::F(24));
    assert_eq!(keysym_to_key_value(0xffe2), KeyValue::Shift);
    assert_eq!(keysym_to_key_value(0x1008ff12), KeyValue::AudioVolumeMute);
    assert_eq!(keysym_to_key_value(0x41), KeyValue::Character("A".to_string()));
    assert_eq!(keysym_to_key_value(0x7e), KeyValue::Character("~".to_string()));
    assert_eq!(keysym_to_key_value(0x7f), KeyValue::Unknown(0x7f));
    assert_eq!(keysym_to_key_value(0xe9), KeyValue::Unknown(0xe9));
}

#[test]
fn event_results_set_flags() {
    let (mut stopped, mut prevented) = (false, false);
    apply_event_result(EventResult::Continue, &mut stopped, &mut prevented);
    assert!(!stopped && !prevented);
    apply_event_result(EventResult::PreventDefault, &mut stopped, &mut prevented);
    assert!(!stopped && prevented);
    apply_event_result(EventResult::Stop, &mut stopped, &mut prevented);
    assert!(stopped && prevented);
}

#[test]
fn background_defaults() {
    assert_eq!(BackgroundClip::default(), BackgroundClip::BorderBox);
    assert_eq!(BackgroundOrigin::default(), BackgroundOrigin::PaddingBox);
}
