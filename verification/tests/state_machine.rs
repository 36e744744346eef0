use blurred::state::{
    AppState, HideReason, SavedState, StateAction, VisibilityState, COPY_NOTICE_MILLIS,
    MAX_RECENT_FILES,
};

fn test_state() -> AppState {
    AppState::from_settings(SavedState::default())
}

#[test]
fn file_loaded_updates_last_file_recent_files_and_effects() {
    let mut state = test_state();
    let first = b"/tmp/one.txt".to_vec();
    let second = b"/tmp/two.txt".to_vec();

    state.apply(StateAction::FileLoaded { path: first.clone() }, 0);
    let effects = state.apply(StateAction::FileLoaded { path: second.clone() }, 0);

    assert_eq!(state.current_file, Some(second.clone()));
    assert_eq!(state.settings.last_file, Some(second.clone()));
    assert_eq!(state.settings.recent_files, vec![second, first]);
    assert!(effects.sync_title);
    assert!(effects.sync_menu);
    assert!(effects.apply_visibility);
    assert!(effects.focus_editor);
}

#[test]
fn recent_files_are_deduped_and_truncated() {
    let mut state = test_state();

    for index in 0..(MAX_RECENT_FILES + 2) {
        state.apply(StateAction::FileLoaded { path: format!("/tmp/file-{index}.txt").into_bytes() }, 0);
    }

    state.apply(StateAction::FileLoaded { path: b"/tmp/file-3.txt".to_vec() }, 0);

    assert_eq!(state.settings.recent_files.len(), MAX_RECENT_FILES);
    assert_eq!(state.settings.recent_files.first(), Some(&b"/tmp/file-3.txt".to_vec()));
    assert_eq!(
        state.settings.recent_files.iter().filter(|path| path.as_slice() == b"/tmp/file-3.txt").count(),
        1
    );
}

#[test]
fn temporary_hide_ignores_first_focus_then_allows_focus_loss_cycle() {
    let mut state = test_state();

    state.apply(StateAction::HideTemporarily, 0);
    assert_eq!(
        state.visibility,
        VisibilityState::Hidden(HideReason::Temporary { ignored_focus_after_hide: false })
    );

    let focus_effects = state.apply(StateAction::Focused, 0);
    assert_eq!(
        state.visibility,
        VisibilityState::Hidden(HideReason::Temporary { ignored_focus_after_hide: true })
    );
    assert!(!focus_effects.apply_visibility);

    let unfocus_effects = state.apply(StateAction::Unfocused, 0);
    assert_eq!(state.visibility, VisibilityState::Hidden(HideReason::FocusLoss));
    assert_eq!(unfocus_effects.schedule_hide_generation, None);

    let refocus_effects = state.apply(StateAction::Focused, 0);
    assert_eq!(state.visibility, VisibilityState::Visible);
    assert!(refocus_effects.apply_visibility);
    assert!(refocus_effects.focus_editor);
}

#[test]
fn auto_show_disabled_keeps_window_hidden_on_focus() {
    let mut state = test_state();
    state.apply(StateAction::SetAutoShow(false), 0);
    state.apply(StateAction::HideTemporarily, 0);
    state.apply(StateAction::Focused, 0);
    state.apply(StateAction::Unfocused, 0);

    let effects = state.apply(StateAction::Focused, 0);

    assert_eq!(state.visibility, VisibilityState::Hidden(HideReason::FocusLoss));
    assert!(!effects.apply_visibility);
}

#[test]
fn unfocus_while_visible_schedules_deferred_hide() {
    let mut state = test_state();

    let effects = state.apply(StateAction::Unfocused, 0);

    assert_eq!(effects.schedule_hide_generation, Some(1));
    assert_eq!(state.focus_generation, 1);
}

#[test]
fn deferred_hide_only_applies_for_matching_generation() {
    let mut state = test_state();
    let scheduled = state.apply(StateAction::Unfocused, 0).schedule_hide_generation;

    let wrong_generation_effects = state.apply(StateAction::DeferredHideOnUnfocus(999), 0);
    assert_eq!(state.visibility, VisibilityState::Visible);
    assert!(!wrong_generation_effects.apply_visibility);

    let correct_generation_effects =
        state.apply(StateAction::DeferredHideOnUnfocus(scheduled.unwrap()), 0);
    assert_eq!(state.visibility, VisibilityState::Hidden(HideReason::FocusLoss));
    assert!(correct_generation_effects.apply_visibility);
}

#[test]
fn copy_hides_with_notice_and_tick_clears_notice() {
    let mut state = test_state();

    let copy_effects = state.apply(StateAction::Copied, 0);
    assert_eq!(state.visibility, VisibilityState::Hidden(HideReason::CopyNotice));
    assert!(state.copied_notice_until.is_some());
    assert!(copy_effects.apply_visibility);
    assert!(copy_effects.redraw_hidden_preview);

    let now: u64 = 5_000;
    state.copied_notice_until = Some(now - 10);
    let tick_effects = state.apply(StateAction::Tick, now);
    assert_eq!(state.copied_notice_until, None);
    assert!(tick_effects.redraw_hidden_preview);
}

#[test]
fn copy_does_not_hide_when_hide_on_copy_disabled() {
    let mut state = test_state();
    state.hide_on_copy = false;

    let effects = state.apply(StateAction::Copied, 0);

    assert_eq!(state.visibility, VisibilityState::Visible);
    assert!(state.copied_notice_until.is_none());
    assert!(!effects.apply_visibility);
}

#[test]
fn show_clears_copy_notice_and_restores_visibility() {
    let mut state = test_state();
    state.apply(StateAction::Copied, 0);

    let effects = state.apply(StateAction::Show, 0);

    assert_eq!(state.visibility, VisibilityState::Visible);
    assert_eq!(state.copied_notice_until, None);
    assert!(effects.apply_visibility);
    assert!(effects.focus_editor);
}

#[test]
fn always_visible_forces_show_and_blocks_hide() {
    let mut state = test_state();
    state.apply(StateAction::HideTemporarily, 0);

    let effects = state.apply(StateAction::SetAlwaysVisible(true), 0);

    assert!(state.always_visible);
    assert_eq!(state.visibility, VisibilityState::Visible);
    assert!(effects.sync_menu);
    assert!(effects.apply_visibility);
    assert!(effects.focus_editor);

    let hide_effects = state.apply(StateAction::HideTemporarily, 0);
    assert_eq!(state.visibility, VisibilityState::Visible);
    assert!(!hide_effects.apply_visibility);
}

#[test]
fn toggle_actions_mark_settings_dirty() {
    let mut state = test_state();

    let always_effects = state.apply(StateAction::SetAlwaysVisible(true), 0);
    assert!(state.settings_dirty);
    assert!(always_effects.sync_menu);

    state.settings_dirty = false;
    let auto_effects = state.apply(StateAction::SetAutoShow(false), 0);
    assert!(state.settings_dirty);
    assert!(auto_effects.sync_menu);
    assert!(!state.auto_show);
}

// ---------------------------------------------------------------------------
// Further cases
// ---------------------------------------------------------------------------

#[test]
fn copy_notice_lasts_its_full_time() {
    let mut state = test_state();
    state.apply(StateAction::Copied, 100);
    assert_eq!(state.copied_notice_until, Some(100 + COPY_NOTICE_MILLIS));
    assert!(state.copy_notice_showing(100 + COPY_NOTICE_MILLIS - 1));
    assert!(!state.copy_notice_showing(100 + COPY_NOTICE_MILLIS));
    assert!(state.needs_notice_tick());

    let early = state.apply(StateAction::Tick, 100 + COPY_NOTICE_MILLIS - 1);
    assert_eq!(state.copied_notice_until, Some(100 + COPY_NOTICE_MILLIS));
    assert!(!early.redraw_hidden_preview);

    // focusing while the notice shows leaves the text hidden
    let focus = state.apply(StateAction::Focused, 100 + COPY_NOTICE_MILLIS - 1);
    assert_eq!(state.visibility, VisibilityState::Hidden(HideReason::CopyNotice));
    assert!(!focus.apply_visibility);

    state.apply(StateAction::Tick, 100 + COPY_NOTICE_MILLIS);
    assert_eq!(state.copied_notice_until, None);
    assert!(!state.needs_notice_tick());

    // once it is over, the focus shows the text again
    let focus = state.apply(StateAction::Focused, 100 + COPY_NOTICE_MILLIS + 1);
    assert_eq!(state.visibility, VisibilityState::Visible);
    assert!(focus.apply_visibility && focus.focus_editor);
}

#[test]
fn focus_makes_scheduled_hide_stale() {
    let mut state = test_state();
    let scheduled = state.apply(StateAction::Unfocused, 0).schedule_hide_generation.unwrap();
    state.apply(StateAction::Focused, 10);
    let effects = state.apply(StateAction::DeferredHideOnUnfocus(scheduled), 20);
    assert_eq!(state.visibility, VisibilityState::Visible);
    assert!(!effects.apply_visibility);
}

#[test]
fn focus_generation_wraps_around() {
    let mut state = test_state();
    state.focus_generation = u64::MAX;
    let effects = state.apply(StateAction::Unfocused, 0);
    assert_eq!(state.focus_generation, 0);
    assert_eq!(effects.schedule_hide_generation, Some(0));
}

#[test]
fn always_visible_blocks_every_hide() {
    let mut state = test_state();
    state.apply(StateAction::SetAlwaysVisible(true), 0);
    let unfocus = state.apply(StateAction::Unfocused, 0);
    assert_eq!(unfocus.schedule_hide_generation, None);
    state.apply(StateAction::DeferredHideOnUnfocus(state.focus_generation), 0);
    state.apply(StateAction::Copied, 0);
    state.apply(StateAction::HideTemporarily, 0);
    assert_eq!(state.visibility, VisibilityState::Visible);
    assert_eq!(state.copied_notice_until, None);
}

#[test]
fn load_failure_records_error_and_load_clears_it() {
    let mut state = test_state();
    let effects = state.apply(StateAction::FileLoadFailed(String::from("Could not open file: x")), 0);
    assert_eq!(state.last_error, Some(String::from("Could not open file: x")));
    assert!(effects.redraw_hidden_preview);
    assert!(!effects.apply_visibility);
    state.apply(StateAction::FileLoaded { path: b"/tmp/a.txt".to_vec() }, 0);
    assert_eq!(state.last_error, None);
}

#[test]
fn recent_files_treat_equivalent_paths_as_one() {
    let mut state = test_state();
    state.apply(StateAction::FileLoaded { path: b"/tmp/notes/a.txt".to_vec() }, 0);
    state.apply(StateAction::FileLoaded { path: b"/tmp/b.txt".to_vec() }, 0);
    state.apply(StateAction::FileLoaded { path: b"/tmp//notes/./a.txt".to_vec() }, 0);
    assert_eq!(
        state.settings.recent_files,
        vec![b"/tmp//notes/./a.txt".to_vec(), b"/tmp/b.txt".to_vec()]
    );
}

#[test]
fn toggles_flip_their_setting() {
    let mut state = test_state();
    let hide = state.toggle_visibility(0);
    assert!(!state.is_visible());
    assert!(hide.apply_visibility && hide.redraw_hidden_preview);
    let show = state.toggle_visibility(0);
    assert!(state.is_visible());
    assert!(show.apply_visibility && show.focus_editor);

    state.toggle_always_visible(0);
    assert!(state.always_visible);
    state.toggle_always_visible(0);
    assert!(!state.always_visible);
    state.toggle_auto_show(0);
    assert!(!state.auto_show);
    state.toggle_auto_show(0);
    assert!(state.auto_show);
}

#[test]
fn persisting_settings_round_trips() {
    let mut state = test_state();
    state.apply(StateAction::FileLoaded { path: b"/tmp/a.txt".to_vec() }, 0);
    state.set_dark_mode(true);
    state.set_hide_on_copy(false);
    state.set_opacity_bits(0.5f64.to_bits());
    state.apply(StateAction::SetAlwaysVisible(true), 0);
    state.capture_window_geometry(10, 20, 300, 400);

    assert!(state.persist_settings(true));
    assert!(!state.settings_dirty);
    assert!(!state.persist_settings(true));
    assert!(state.persist_settings(false));

    let restored = AppState::from_settings(state.settings);
    assert!(restored.dark_mode);
    assert!(!restored.hide_on_copy);
    assert!(restored.always_visible);
    assert_eq!(f64::from_bits(restored.opacity_bits), 0.5);
    assert_eq!(restored.current_file, Some(b"/tmp/a.txt".to_vec()));
    assert_eq!(restored.settings.window_rect(), (10, 20, 300, 400));
    assert!(restored.is_visible());
}

#[test]
fn window_geometry_marks_dirty_only_on_change() {
    let mut state = test_state();
    state.capture_window_geometry(100, 100, 500, 500);
    assert!(!state.settings_dirty);
    state.capture_window_geometry(101, 100, 500, 500);
    assert!(state.settings_dirty);
    assert_eq!(state.settings.window_rect(), (101, 100, 500, 500));
}

#[test]
fn default_settings_match_first_run() {
    let settings = SavedState::default();
    assert!(!settings.always_visible);
    assert!(settings.auto_show);
    assert!(settings.hide_on_copy);
    assert!(!settings.dark_mode);
    assert_eq!(f64::from_bits(settings.opacity_bits), 1.0);
    assert_eq!(settings.window_rect(), (100, 100, 500, 500));
    assert!(settings.recent_files.is_empty());
}

#[test]
fn title_and_startup_file() {
    let mut state = test_state();
    assert_eq!(state.window_title(), "No file currently open");
    assert_eq!(state.startup_file(None), None);
    state.apply(StateAction::FileLoaded { path: b"/tmp/a.txt".to_vec() }, 0);
    assert_eq!(state.window_title(), "/tmp/a.txt");
    assert_eq!(state.startup_file(None), Some(b"/tmp/a.txt".to_vec()));
    assert_eq!(
        state.startup_file(Some(b"/tmp/b.txt".to_vec())),
        Some(b"/tmp/b.txt".to_vec())
    );
}

#[test]
fn title_shows_paths_that_are_not_utf8() {
    let mut state = test_state();
    state.apply(StateAction::FileLoaded { path: b"/tmp/caf\xe9.txt".to_vec() }, 0);
    assert_eq!(state.window_title(), "/tmp/caf\u{fffd}.txt");
    assert_eq!(state.current_file, Some(b"/tmp/caf\xe9.txt".to_vec()));
}
