use sortify::menu::{
    account_choice, interpret_confirmation, resolve_input, trim, validate_choice, volume_value,
    AccountChoice, SelectionState, TrackAction,
};

fn selected_flags(sel: &SelectionState) -> Vec<bool> {
    let mut flags: Vec<bool> = Vec::new();
    let mut i = 0;
    while i < sel.len() {
        flags.push(sel.is_selected(i));
        i += 1;
    }
    flags
}

#[test]
fn trimming_strips_outer_whitespace_only() {
    assert_eq!(trim(&String::from("  a b \n")), "a b");
    assert_eq!(trim(&String::from("r")), "r");
    assert_eq!(trim(&String::from("   ")), "");
}

#[test]
fn volume_is_shown_with_one_decimal() {
    assert_eq!(volume_value(10), "1.0");
    assert_eq!(volume_value(0), "0.0");
    assert_eq!(volume_value(17), "1.7");
}

#[test]
fn terminal_commands_resolve_and_keep_selection() {
    let mut sel = SelectionState::new(3);
    assert!(matches!(
        resolve_input(&String::from(" r "), &mut sel, true),
        Some(TrackAction::Remove)
    ));
    assert!(matches!(resolve_input(&String::from("s"), &mut sel, true), Some(TrackAction::Skip)));
    assert!(matches!(resolve_input(&String::from("q"), &mut sel, true), Some(TrackAction::Quit)));
    assert_eq!(selected_flags(&sel), vec![false, false, false]);
}

#[test]
fn volume_inputs_do_not_touch_the_selection() {
    let mut sel = SelectionState::new(2);
    sel.toggle(1);
    let up = resolve_input(&String::from("u"), &mut sel, true);
    assert!(matches!(up, Some(TrackAction::ChangeVolume(true))));
    let down = resolve_input(&String::from("d"), &mut sel, true);
    assert!(matches!(down, Some(TrackAction::ChangeVolume(false))));
    assert_eq!(selected_flags(&sel), vec![false, true]);
}

#[test]
fn volume_inputs_without_audio_are_plain_toggle_lines() {
    let mut sel = SelectionState::new(2);
    let r = resolve_input(&String::from("u"), &mut sel, false);
    assert!(r.is_none());
    assert_eq!(selected_flags(&sel), vec![false, false]);
}

#[test]
fn toggling_twice_restores_the_selection() {
    let mut sel = SelectionState::new(3);
    sel.toggle(1);
    assert_eq!(selected_flags(&sel), vec![false, true, false]);
    sel.toggle(1);
    assert_eq!(selected_flags(&sel), vec![false, false, false]);
}

#[test]
fn numeric_tokens_toggle_their_targets() {
    let mut sel = SelectionState::new(3);
    let r = resolve_input(&String::from("1 3"), &mut sel, true);
    assert!(r.is_none());
    assert_eq!(selected_flags(&sel), vec![true, false, true]);
    let r2 = resolve_input(&String::from("3 nonsense 0 4"), &mut sel, true);
    assert!(r2.is_none());
    assert_eq!(selected_flags(&sel), vec![true, false, false]);
}

#[test]
fn confirm_collects_the_selected_positions() {
    let mut sel = SelectionState::new(3);
    resolve_input(&String::from("1 3"), &mut sel, true);
    match resolve_input(&String::from("a"), &mut sel, true) {
        Some(TrackAction::Add(idx)) => assert_eq!(idx, vec![0, 2]),
        _ => panic!("expected an add"),
    }
}

#[test]
fn confirm_with_no_toggles_is_an_empty_add() {
    let mut sel = SelectionState::new(3);
    match resolve_input(&String::from("a"), &mut sel, true) {
        Some(TrackAction::Add(idx)) => assert!(idx.is_empty()),
        _ => panic!("expected an add"),
    }
}

#[test]
fn unrecognized_lines_resolve_to_nothing() {
    let mut sel = SelectionState::new(2);
    assert!(resolve_input(&String::from("zz"), &mut sel, true).is_none());
    assert!(resolve_input(&String::from(""), &mut sel, true).is_none());
    assert_eq!(selected_flags(&sel), vec![false, false]);
}

#[test]
fn confirmation_keys_read_as_yes_no_or_retry() {
    assert_eq!(interpret_confirmation('y'), Some(true));
    assert_eq!(interpret_confirmation('n'), Some(false));
    assert_eq!(interpret_confirmation('x'), None);
}

#[test]
fn one_based_choices_validate_against_the_item_count() {
    assert_eq!(validate_choice(1, 3), Some(0));
    assert_eq!(validate_choice(3, 3), Some(2));
    assert_eq!(validate_choice(0, 3), None);
    assert_eq!(validate_choice(4, 3), None);
}

#[test]
fn account_keys_log_out_quit_or_continue() {
    assert!(matches!(account_choice('l'), AccountChoice::LogOut));
    assert!(matches!(account_choice('q'), AccountChoice::Quit));
    assert!(matches!(account_choice('z'), AccountChoice::Continue));
}
