use ui::select::{option_look, trigger_text, OptionLook, SelectGroup, SelectOption, SelectState};

fn sample_options() -> Vec<SelectOption> {
    vec![
        SelectOption::new("apple", "Apple"),
        SelectOption::new("banana", "Banana"),
        SelectOption::new("cherry", "Cherry"),
        SelectOption::new("date", "Date"),
        SelectOption::new("elderberry", "Elderberry"),
    ]
}

fn options_with_disabled() -> Vec<SelectOption> {
    vec![
        SelectOption::new("a", "Alpha"),
        SelectOption::new("b", "Beta").disabled(),
        SelectOption::new("c", "Charlie"),
        SelectOption::new("d", "Delta").disabled(),
        SelectOption::new("e", "Echo"),
    ]
}

#[test]
fn test_new_state() {
    let state = SelectState::new();
    assert!(!state.open);
    assert_eq!(state.highlighted, None);
    assert!(state.search_text.is_empty());
}

#[test]
fn select_state_test_toggle() {
    let mut state = SelectState::new();
    state.toggle();
    assert!(state.open);
    state.search_text = "test".to_string();
    state.toggle();
    assert!(!state.open);
    assert!(state.search_text.is_empty());
}

#[test]
fn test_highlight_next() {
    let opts = sample_options();
    let mut state = SelectState::new();

    state.highlight_next(&opts);
    assert_eq!(state.highlighted, Some(0));

    state.highlight_next(&opts);
    assert_eq!(state.highlighted, Some(1));

    state.highlighted = Some(4);
    state.highlight_next(&opts);
    assert_eq!(state.highlighted, Some(0)); // wraps around
}

#[test]
fn test_highlight_prev() {
    let opts = sample_options();
    let mut state = SelectState::new();

    state.highlight_prev(&opts);
    assert_eq!(state.highlighted, Some(4)); // starts from last

    state.highlight_prev(&opts);
    assert_eq!(state.highlighted, Some(3));

    state.highlighted = Some(0);
    state.highlight_prev(&opts);
    assert_eq!(state.highlighted, Some(4)); // wraps around
}

#[test]
fn test_highlight_skips_disabled() {
    let opts = options_with_disabled();
    let mut state = SelectState::new();

    state.highlight_next(&opts);
    assert_eq!(state.highlighted, Some(0)); // Alpha

    state.highlight_next(&opts);
    assert_eq!(state.highlighted, Some(2)); // Charlie (skips Beta)

    state.highlight_next(&opts);
    assert_eq!(state.highlighted, Some(4)); // Echo (skips Delta)
}

#[test]
fn test_highlight_prev_skips_disabled() {
    let opts = options_with_disabled();
    let mut state = SelectState::new();
    state.highlighted = Some(4); // Echo

    state.highlight_prev(&opts);
    assert_eq!(state.highlighted, Some(2)); // Charlie (skips Delta)

    state.highlight_prev(&opts);
    assert_eq!(state.highlighted, Some(0)); // Alpha (skips Beta)
}

#[test]
fn test_highlight_first_last() {
    let opts = options_with_disabled();
    let mut state = SelectState::new();

    state.highlight_first(&opts);
    assert_eq!(state.highlighted, Some(0));

    state.highlight_last(&opts);
    assert_eq!(state.highlighted, Some(4));
}

#[test]
fn test_type_ahead() {
    let opts = sample_options();
    let mut state = SelectState::new();

    state.type_ahead('c', &opts);
    assert_eq!(state.highlighted, Some(2)); // Cherry

    state.clear_search();
    state.type_ahead('b', &opts);
    assert_eq!(state.highlighted, Some(1)); // Banana
}

#[test]
fn test_type_ahead_multi_char() {
    let opts = vec![
        SelectOption::new("do", "Dog"),
        SelectOption::new("du", "Duck"),
        SelectOption::new("da", "Dart"),
    ];
    let mut state = SelectState::new();

    state.type_ahead('d', &opts);
    assert_eq!(state.highlighted, Some(0)); // Dog (first 'd')

    state.type_ahead('u', &opts);
    assert_eq!(state.highlighted, Some(1)); // Duck (matches "du")
}

#[test]
fn test_filtered_indices() {
    let opts = sample_options();
    let mut state = SelectState::new();

    // No filter -> all options
    assert_eq!(state.filtered_indices(&opts), vec![0, 1, 2, 3, 4]);

    // Filter by "e" -> Apple, Cherry, Date, Elderberry (contain 'e')
    state.search_text = "e".to_string();
    assert_eq!(state.filtered_indices(&opts), vec![0, 2, 3, 4]);

    // Filter by "ber" -> Elderberry
    state.search_text = "ber".to_string();
    assert_eq!(state.filtered_indices(&opts), vec![4]);
}

#[test]
fn test_empty_options() {
    let opts: Vec<SelectOption> = vec![];
    let mut state = SelectState::new();

    state.highlight_next(&opts);
    assert_eq!(state.highlighted, None);

    state.highlight_prev(&opts);
    assert_eq!(state.highlighted, None);

    state.highlight_first(&opts);
    assert_eq!(state.highlighted, None);

    state.highlight_last(&opts);
    assert_eq!(state.highlighted, None);
}

#[test]
fn test_all_disabled() {
    let opts = vec![
        SelectOption::new("a", "Alpha").disabled(),
        SelectOption::new("b", "Beta").disabled(),
    ];
    let mut state = SelectState::new();

    // Should not highlight anything since all are disabled
    state.highlight_next(&opts);
    assert_eq!(state.highlighted, None);
}

// --- further cases ---

#[test]
fn all_disabled_keeps_existing_highlight_both_ways() {
    let opts = vec![
        SelectOption::new("a", "Alpha").disabled(),
        SelectOption::new("b", "Beta").disabled(),
    ];
    let mut state = SelectState::new();
    state.highlighted = Some(1);
    state.highlight_next(&opts);
    assert_eq!(state.highlighted, Some(1));
    state.highlight_prev(&opts);
    assert_eq!(state.highlighted, Some(1));
}

#[test]
fn navigation_always_lands_on_enabled_option() {
    let opts = options_with_disabled();
    let mut state = SelectState::new();
    for _ in 0..12 {
        state.highlight_next(&opts);
        assert!(!opts[state.highlighted.unwrap()].disabled);
    }
    for _ in 0..12 {
        state.highlight_prev(&opts);
        assert!(!opts[state.highlighted.unwrap()].disabled);
    }
}

#[test]
fn highlight_next_from_last_enabled_wraps_past_disabled() {
    let opts = vec![
        SelectOption::new("a", "Alpha").disabled(),
        SelectOption::new("b", "Beta"),
        SelectOption::new("c", "Charlie").disabled(),
    ];
    let mut state = SelectState::new();
    state.highlighted = Some(1);
    state.highlight_next(&opts);
    assert_eq!(state.highlighted, Some(1));
    state.highlight_prev(&opts);
    assert_eq!(state.highlighted, Some(1));
}

#[test]
fn type_ahead_without_match_keeps_highlight() {
    let opts = sample_options();
    let mut state = SelectState::new();
    state.highlighted = Some(3);
    state.type_ahead('z', &opts);
    assert_eq!(state.highlighted, Some(3));
    assert_eq!(state.search_text, "z");
}

#[test]
fn type_ahead_is_case_insensitive() {
    let opts = sample_options();
    let mut state = SelectState::new();
    state.type_ahead('E', &opts);
    assert_eq!(state.highlighted, Some(4));
}

#[test]
fn filtered_indices_ignores_case_of_search() {
    let opts = sample_options();
    let mut state = SelectState::new();
    state.search_text = "AN".to_string();
    assert_eq!(state.filtered_indices(&opts), vec![1]);
}

#[test]
fn open_and_close() {
    let mut state = SelectState::new();
    state.open();
    assert!(state.open);
    state.search_text = "x".to_string();
    state.close();
    assert!(!state.open);
    assert!(state.search_text.is_empty());
}

#[test]
fn group_keeps_label_and_options() {
    let g = SelectGroup::new("Fruit", sample_options());
    assert_eq!(g.label, "Fruit");
    assert_eq!(g.options.len(), 5);
    assert_eq!(g.options[2].value, "cherry");
}

#[test]
fn closed_select_shows_choice_or_placeholder() {
    let opts = vec![SelectOption::new("a", "Apple"), SelectOption::new("b", "Banana")];
    assert_eq!(trigger_text(&opts, Some(1), "Pick one"), ("Banana".to_string(), false));
    assert_eq!(trigger_text(&opts, None, "Pick one"), ("Pick one".to_string(), true));
    assert_eq!(trigger_text(&opts, Some(5), "Pick one"), ("Pick one".to_string(), true));
}

#[test]
fn option_looks() {
    let plain = SelectOption::new("a", "Apple");
    let off = SelectOption::new("b", "Banana").disabled();
    assert_eq!(option_look(&plain, 0, Some(0)), OptionLook::Chosen);
    assert_eq!(option_look(&plain, 0, Some(1)), OptionLook::Plain);
    assert_eq!(option_look(&plain, 0, None), OptionLook::Plain);
    assert_eq!(option_look(&off, 1, Some(1)), OptionLook::Disabled);
}

#[test]
fn test_close_resets_state() {
    // The scroll offset of the dropdown is drawing state kept by the caller;
    // the open flag and the search text are reset here.
    let mut state = SelectState::new();
    state.open = true;
    state.search_text = "test".to_string();

    state.close();
    assert!(!state.open);
    assert!(state.search_text.is_empty());
}
