//! Properties of the library as a whole, proved over the models that the
//! executable functions are verified against.
use vstd::prelude::*;
use crate::document::{
    decoded_text, is_rtf_junk, is_rtf_text, join_lines, kept_lines, lemma_join_first,
    lemma_join_last, lemma_kept_lines_clean, lemma_not_junk_has_text,
    lemma_split_join, lemma_split_pieces_lack_separator, lemma_trim_end_fixed,
    lemma_trim_start_concat, lemma_trim_start_idempotent, rtf_plain_text, rtf_scan,
    split_lines, initial_scan, after_header, all_skipped, balanced_braces, brace_depth,
    is_destination, lemma_alpha_run_over, lemma_destination_letters, lemma_header,
    lemma_join_split, lemma_kept_all, lemma_plain_region, lemma_scan_shift,
    lemma_skipped_region, param_run_end, rtf1_header, rtf_step, RtfScan, escapes_are_words_or_hex,
    is_hex_char, lemma_skipped_tokens,
};
use crate::menu::{menu_spec, recent_label, MenuCommand, MenuItemKind};
use crate::paths::{
    join_pieces, lemma_join_split_pieces, lemma_kept_after_empty, lemma_split_after_slash,
    same_path, DOT, SLASH,
};
use crate::text::split_on;
use crate::text::{trim, trim_end, trim_start};
use crate::state::{
    action_time_ok, apply_spec, auto_show_on_focus, distinct_paths, initial_state, is_shown,
    next_generation, no_effects, notice_showing, persisted, recent_after_open, settings_wf,
    state_wf, truncated, with_window_geometry, without_path, AppStateView, HideReason,
    SavedStateView, StateAction, VisibilityState, COPY_NOTICE_MILLIS, MAX_RECENT_FILES,
};

verus! {

// ---------------------------------------------------------------------------
// The file history
// ---------------------------------------------------------------------------

proof fn lemma_without_path(list: Seq<Seq<u8>>, p: Seq<u8>)
    ensures
        without_path(list, p).len() <= list.len(),
        forall|k: int|
            0 <= k < without_path(list, p).len() ==> !same_path(
                #[trigger] without_path(list, p)[k],
                p,
            ),
        forall|k: int|
            0 <= k < without_path(list, p).len() ==> exists|j: int|
                0 <= j < list.len() && list[j] == #[trigger] without_path(list, p)[k],
        distinct_paths(list) ==> distinct_paths(without_path(list, p)),
    decreases list.len(),
{
    if list.len() > 0 {
        let dl = list.drop_last();
        lemma_without_path(dl, p);
        let w = without_path(dl, p);
        assert forall|k: int| 0 <= k < without_path(list, p).len() implies exists|j: int|
            0 <= j < list.len() && list[j] == #[trigger] without_path(list, p)[k] by {
            if k < w.len() {
                let j = choose|j: int| 0 <= j < dl.len() && dl[j] == w[k];
                assert(list[j] == without_path(list, p)[k]);
            } else {
                assert(list[list.len() - 1] == without_path(list, p)[k]);
            }
        }
        if distinct_paths(list) {
            assert(distinct_paths(dl)) by {
                assert forall|i: int, j: int| 0 <= i < j < dl.len() implies !same_path(
                    #[trigger] dl[i],
                    #[trigger] dl[j],
                ) by {
                    assert(dl[i] == list[i] && dl[j] == list[j]);
                }
            }
            let r = without_path(list, p);
            assert forall|i: int, j: int| 0 <= i < j < r.len() implies !same_path(
                #[trigger] r[i],
                #[trigger] r[j],
            ) by {
                if j >= w.len() {
                    let jj = choose|jj: int| 0 <= jj < dl.len() && dl[jj] == w[i];
                    assert(list[jj] == r[i]);
                    assert(list[list.len() - 1] == r[j]);
                } else {
                    assert(r[i] == w[i] && r[j] == w[j]);
                }
            }
        }
    }
}

/// Opening a file puts it first in the history; no other entry names the
/// same file; the history keeps at most `MAX_RECENT_FILES` entries; every
/// other entry was in the history before; and a history that named each file
/// once still does.
pub proof fn law_recent_after_open(list: Seq<Seq<u8>>, p: Seq<u8>)
    ensures
        recent_after_open(list, p).len() <= MAX_RECENT_FILES,
        recent_after_open(list, p).len() >= 1,
        recent_after_open(list, p)[0] == p,
        forall|k: int|
            1 <= k < recent_after_open(list, p).len() ==> !same_path(
                #[trigger] recent_after_open(list, p)[k],
                p,
            ),
        forall|k: int|
            1 <= k < recent_after_open(list, p).len() ==> list.contains(
                #[trigger] recent_after_open(list, p)[k],
            ),
        distinct_paths(list) ==> distinct_paths(recent_after_open(list, p)),
{
    lemma_without_path(list, p);
    let w = without_path(list, p);
    let full = seq![p] + w;
    let r = recent_after_open(list, p);
    assert(r.len() <= full.len());
    assert forall|k: int| 0 <= k < r.len() implies #[trigger] r[k] == full[k] by {}
    assert forall|k: int| 1 <= k < r.len() implies !same_path(#[trigger] r[k], p) by {
        assert(r[k] == w[k - 1]);
    }
    assert forall|k: int| 1 <= k < r.len() implies list.contains(#[trigger] r[k]) by {
        assert(r[k] == w[k - 1]);
        let j = choose|j: int| 0 <= j < list.len() && list[j] == w[k - 1];
        assert(list[j] == r[k]);
    }
    if distinct_paths(list) {
        assert forall|i: int, j: int| 0 <= i < j < r.len() implies !same_path(
            #[trigger] r[i],
            #[trigger] r[j],
        ) by {
            if i == 0 {
                assert(r[j] == w[j - 1]);
                assert(!same_path(w[j - 1], p));
            } else {
                assert(r[i] == w[i - 1] && r[j] == w[j - 1]);
            }
        }
    }
}


/// An absolute path written without redundancy: `/`, then names (not empty
/// and not `.`) with one `/` between each two.
pub open spec fn is_clean_absolute_path(a: Seq<u8>) -> bool {
    &&& a.len() >= 1
    &&& a[0] == SLASH
    &&& forall|k: int|
        0 <= k < split_on(a.drop_first(), SLASH).len() ==> {
            let part = #[trigger] split_on(a.drop_first(), SLASH)[k];
            part.len() > 0 && part != seq![DOT]
        }
}

/// Two absolute paths written without redundancy name the same file exactly
/// when they are the same bytes: no part of one may differ from the other's,
/// whether it is the first, the last or one in between.
pub proof fn law_clean_paths_same_only_when_equal(a: Seq<u8>, b: Seq<u8>)
    requires
        is_clean_absolute_path(a),
        is_clean_absolute_path(b),
    ensures
        same_path(a, b) <==> a == b,
{
    let ra = a.drop_first();
    let rb = b.drop_first();
    assert(a =~= seq![SLASH] + ra);
    assert(b =~= seq![SLASH] + rb);
    lemma_split_after_slash(ra);
    lemma_split_after_slash(rb);
    let pa = split_on(ra, SLASH);
    let pb = split_on(rb, SLASH);
    lemma_kept_after_empty(pa);
    lemma_kept_after_empty(pb);
    assert(crate::paths::path_components(a) == seq![seq![SLASH]] + pa);
    assert(crate::paths::path_components(b) == seq![seq![SLASH]] + pb);
    if same_path(a, b) {
        assert((seq![seq![SLASH]] + pa).drop_first() =~= pa);
        assert((seq![seq![SLASH]] + pb).drop_first() =~= pb);
        assert(pa == pb);
        lemma_join_split_pieces(ra);
        lemma_join_split_pieces(rb);
        assert(ra == rb);
    }
}

// ---------------------------------------------------------------------------
// The state machine
// ---------------------------------------------------------------------------

/// Saved settings whose file history is short and names each file once give
/// a well-formed start-up state.
pub proof fn law_initial_state_wf(settings: SavedStateView)
    requires
        settings_wf(settings),
    ensures
        state_wf(initial_state(settings)),
{
}

/// Every event keeps the state well-formed.
pub proof fn law_apply_preserves_wf(s: AppStateView, action: StateAction, now: u64)
    requires
        state_wf(s),
        action_time_ok(action, now),
    ensures
        state_wf(apply_spec(s, action, now).0),
{
    match action {
        StateAction::FileLoaded { path } => {
            law_recent_after_open(s.settings.recent_files, path@);
        },
        _ => {},
    }
}

/// Writing the preferences into the settings and recording the window's
/// geometry keep the state well-formed.
pub proof fn law_persist_and_geometry_preserve_wf(
    s: AppStateView,
    x: i32,
    y: i32,
    w: i32,
    h: i32,
)
    requires
        state_wf(s),
    ensures
        state_wf(persisted(s)),
        state_wf(with_window_geometry(s, x, y, w, h)),
{
}

/// "Always visible" keeps the text shown with no notice running: every event
/// keeps that so, and with it on, hiding, copying, losing the focus and a
/// scheduled hide change nothing on screen and schedule nothing. It needs
/// nothing else of the state.
pub proof fn law_always_visible_holds(s: AppStateView, action: StateAction, now: u64)
    requires
        s.always_visible ==> is_shown(s) && s.copied_notice_until is None,
    ensures
        ({
            let (t, e) = apply_spec(s, action, now);
            &&& t.always_visible ==> is_shown(t) && t.copied_notice_until is None
            &&& (s.always_visible && (action is HideTemporarily || action is Copied
                || action is Unfocused || action is DeferredHideOnUnfocus)) ==> t.visibility
                == VisibilityState::Visible && !e.apply_visibility
                && e.schedule_hide_generation is None
        }),
{
}

/// With "always visible" on, no event hides the text.
pub proof fn law_always_visible_never_hides(s: AppStateView, action: StateAction, now: u64)
    requires
        state_wf(s),
        s.always_visible,
    ensures
        is_shown(apply_spec(s, action, now).0),
{
}

/// Turning "always visible" on shows the text and clears the notice.
pub proof fn law_always_visible_shows(s: AppStateView, now: u64)
    ensures
        ({
            let (t, e) = apply_spec(s, StateAction::SetAlwaysVisible(true), now);
            &&& t.always_visible
            &&& is_shown(t)
            &&& t.copied_notice_until is None
            &&& t.settings_dirty
            &&& e.sync_menu
            &&& e.apply_visibility == (!is_shown(s) || s.copied_notice_until is Some)
        }),
{
}

/// "Show" shows the text and ends the notice.
pub proof fn law_show(s: AppStateView, now: u64)
    ensures
        is_shown(apply_spec(s, StateAction::Show, now).0),
        apply_spec(s, StateAction::Show, now).0.copied_notice_until is None,
{
}

/// "Hide" hides the text, unless "always visible" is on, which leaves the
/// state as it was.
pub proof fn law_hide(s: AppStateView, now: u64)
    ensures
        !s.always_visible ==> apply_spec(s, StateAction::HideTemporarily, now).0.visibility
            == VisibilityState::Hidden(HideReason::Temporary { ignored_focus_after_hide: false }),
        s.always_visible ==> apply_spec(s, StateAction::HideTemporarily, now) == (s, no_effects()),
{
}

/// The space bar toggles: shown text is hidden (unless "always visible" is
/// on) and hidden text is shown.
pub proof fn law_toggle(s: AppStateView, now: u64)
    ensures
        is_shown(s) && !s.always_visible ==> !is_shown(
            apply_spec(s, StateAction::HideTemporarily, now).0,
        ),
        !is_shown(s) ==> is_shown(apply_spec(s, StateAction::Show, now).0),
{
}

/// Losing the focus while the text is shown schedules a hide; when that hide
/// comes with the generation it was given, the text is hidden.
pub proof fn law_focus_loss_hides(s: AppStateView, now: u64, later: u64)
    requires
        is_shown(s),
        !s.always_visible,
    ensures
        ({
            let (s1, e1) = apply_spec(s, StateAction::Unfocused, now);
            &&& e1.schedule_hide_generation == Some(s1.focus_generation)
            &&& is_shown(s1)
            &&& ({
                let (s2, e2) = apply_spec(
                    s1,
                    StateAction::DeferredHideOnUnfocus(s1.focus_generation),
                    later,
                );
                &&& s2.visibility == VisibilityState::Hidden(HideReason::FocusLoss)
                &&& e2.apply_visibility
                &&& e2.redraw_hidden_preview
            })
        }),
{
}

/// A scheduled hide whose generation is not the current one changes nothing.
pub proof fn law_stale_hide_ignored(s: AppStateView, generation: u64, now: u64)
    requires
        generation != s.focus_generation,
    ensures
        apply_spec(s, StateAction::DeferredHideOnUnfocus(generation), now) == (s, no_effects()),
{
}

/// A focus event makes every hide scheduled before it stale.
pub proof fn law_focus_cancels_scheduled_hide(s: AppStateView, now: u64, later: u64, last: u64)
    ensures
        ({
            let (s1, e1) = apply_spec(s, StateAction::Unfocused, now);
            let (s2, e2) = apply_spec(s1, StateAction::Focused, later);
            e1.schedule_hide_generation matches Some(g) ==> apply_spec(
                s2,
                StateAction::DeferredHideOnUnfocus(g),
                last,
            ) == (s2, no_effects())
        }),
{
}

/// Focusing the window shows text that was hidden by a focus loss or a copy,
/// once no notice shows and "auto show" or "always visible" is on.
pub proof fn law_focus_reveals(s: AppStateView, now: u64)
    requires
        s.visibility == VisibilityState::Hidden(HideReason::FocusLoss) || s.visibility
            == VisibilityState::Hidden(HideReason::CopyNotice),
        !notice_showing(s, now),
        s.auto_show || s.always_visible,
    ensures
        ({
            let (t, e) = apply_spec(s, StateAction::Focused, now);
            &&& is_shown(t)
            &&& t.copied_notice_until is None
            &&& e.apply_visibility
            &&& e.focus_editor
        }),
{
}

/// With "auto show" and "always visible" off, focusing the window never shows
/// hidden text.
pub proof fn law_auto_show_off_keeps_hidden(s: AppStateView, now: u64)
    requires
        !is_shown(s),
        !s.auto_show,
        !s.always_visible,
    ensures
        !is_shown(apply_spec(s, StateAction::Focused, now).0),
        !apply_spec(s, StateAction::Focused, now).1.apply_visibility,
{
}

/// After "Hide", the first focus event is ignored, and the focus loss that
/// follows turns the hide into an ordinary one, without scheduling anything.
pub proof fn law_manual_hide_ignores_first_focus(s: AppStateView, now: u64, later: u64)
    requires
        s.visibility == VisibilityState::Hidden(HideReason::Temporary { ignored_focus_after_hide: false }),
        !s.always_visible,
    ensures
        ({
            let (s1, e1) = apply_spec(s, StateAction::Focused, now);
            let (s2, e2) = apply_spec(s1, StateAction::Unfocused, later);
            &&& s1.visibility == VisibilityState::Hidden(
                HideReason::Temporary { ignored_focus_after_hide: true },
            )
            &&& e1 == no_effects()
            &&& s2.visibility == VisibilityState::Hidden(HideReason::FocusLoss)
            &&& e2 == no_effects()
        }),
{
}

/// A copy with "hide on copy" on hides the text and starts the notice, which
/// a tick clears once its time is up and not before; while it shows, focusing
/// the window does not show the text.
pub proof fn law_copy_notice(s: AppStateView, now: u64, tick: u64)
    requires
        is_shown(s),
        s.hide_on_copy,
        !s.always_visible,
        now <= u64::MAX - COPY_NOTICE_MILLIS,
    ensures
        ({
            let (s1, e1) = apply_spec(s, StateAction::Copied, now);
            let (s2, e2) = apply_spec(s1, StateAction::Tick, tick);
            &&& s1.visibility == VisibilityState::Hidden(HideReason::CopyNotice)
            &&& s1.copied_notice_until == Some((now + COPY_NOTICE_MILLIS) as u64)
            &&& e1.apply_visibility
            &&& e1.redraw_hidden_preview
            &&& (tick >= now + COPY_NOTICE_MILLIS ==> s2.copied_notice_until is None
                && e2.redraw_hidden_preview)
            &&& (tick < now + COPY_NOTICE_MILLIS ==> s2 == s1 && e2 == no_effects()
                && !auto_show_on_focus(s1, tick))
        }),
{
}

/// A copy with "hide on copy" off changes nothing.
pub proof fn law_copy_without_hide(s: AppStateView, now: u64)
    requires
        !s.hide_on_copy,
    ensures
        apply_spec(s, StateAction::Copied, now) == (s, no_effects()),
{
}

/// Opening a file makes it the current and the last file, puts it first in
/// the history, shows the text and clears any error and notice.
pub proof fn law_file_loaded(s: AppStateView, path: Vec<u8>, now: u64)
    ensures
        ({
            let (t, e) = apply_spec(s, StateAction::FileLoaded { path: path }, now);
            &&& t.current_file == Some(path@)
            &&& t.settings.last_file == Some(path@)
            &&& t.settings.recent_files[0] == path@
            &&& is_shown(t)
            &&& t.copied_notice_until is None
            &&& t.last_error is None
            &&& t.settings_dirty
            &&& e.sync_title && e.sync_menu && e.apply_visibility && e.focus_editor
        }),
{
    law_recent_after_open(s.settings.recent_files, path@);
}

/// Changing "always visible" or "auto show" marks the settings dirty and
/// rebuilds the menu.
pub proof fn law_toggles_mark_dirty(s: AppStateView, enabled: bool, now: u64)
    ensures
        apply_spec(s, StateAction::SetAlwaysVisible(enabled), now).0.settings_dirty,
        apply_spec(s, StateAction::SetAlwaysVisible(enabled), now).0.always_visible == enabled,
        apply_spec(s, StateAction::SetAlwaysVisible(enabled), now).1.sync_menu,
        apply_spec(s, StateAction::SetAutoShow(enabled), now).0.settings_dirty,
        apply_spec(s, StateAction::SetAutoShow(enabled), now).0.auto_show == enabled,
        apply_spec(s, StateAction::SetAutoShow(enabled), now).1.sync_menu,
{
}

/// What is stored is what comes back: the state started from the settings
/// that were written has the same preferences, file, history and geometry.
pub proof fn law_settings_round_trip(s: AppStateView)
    requires
        state_wf(s),
    ensures
        ({
            let r = initial_state(persisted(s).settings);
            &&& r.always_visible == s.always_visible
            &&& r.auto_show == s.auto_show
            &&& r.hide_on_copy == s.hide_on_copy
            &&& r.dark_mode == s.dark_mode
            &&& r.opacity_bits == s.opacity_bits
            &&& r.current_file == s.current_file
            &&& r.settings.recent_files == s.settings.recent_files
            &&& r.settings.window_x == s.settings.window_x
            &&& r.settings.window_y == s.settings.window_y
            &&& r.settings.window_w == s.settings.window_w
            &&& r.settings.window_h == s.settings.window_h
        }),
{
}


/// Recording the window's geometry stores exactly the four values given, and
/// the settings become dirty when any one of them differs from what was
/// stored; nothing else changes.
pub proof fn law_window_geometry_recorded(s: AppStateView, x: i32, y: i32, w: i32, h: i32)
    ensures
        ({
            let t = with_window_geometry(s, x, y, w, h);
            &&& t.settings.window_x == x
            &&& t.settings.window_y == y
            &&& t.settings.window_w == w
            &&& t.settings.window_h == h
            &&& t.settings_dirty == (s.settings_dirty || s.settings.window_x != x
                || s.settings.window_y != y || s.settings.window_w != w
                || s.settings.window_h != h)
            &&& t.visibility == s.visibility
            &&& t.current_file == s.current_file
            &&& t.settings.recent_files == s.settings.recent_files
        }),
{
}

/// Text hidden by hand stays hidden on focus: whichever focus event it is,
/// focusing neither counts as a reason to show it nor shows it, and asks
/// nothing of the window.
pub proof fn law_manual_hide_survives_focus(s: AppStateView, ignored: bool, now: u64)
    requires
        s.visibility == VisibilityState::Hidden(
            HideReason::Temporary { ignored_focus_after_hide: ignored },
        ),
    ensures
        !auto_show_on_focus(s, now),
        !is_shown(apply_spec(s, StateAction::Focused, now).0),
        apply_spec(s, StateAction::Focused, now).0.visibility == VisibilityState::Hidden(
            HideReason::Temporary { ignored_focus_after_hide: true },
        ),
        apply_spec(s, StateAction::Focused, now).1 == no_effects(),
{
}

/// Each menu entry does what its label says: "Open..." opens (with Ctrl+O),
/// "Reload" reloads (Ctrl+R), "Quit" quits (Ctrl+Q), the two option entries
/// turn their option over and carry its check mark, "Settings..." opens the
/// settings, "Show" shows and "Hide" hides; every file of the history has an
/// entry that opens that file; and no entry labelled "Show" or "Hide" does
/// anything else.
pub proof fn law_menu_commands_match_labels(s: AppStateView)
    ensures
        ({
            let m = menu_spec(s);
            &&& exists|k: int|
                0 <= k < m.len() && m[k].label == "&File/Open...\t"@ && m[k].command
                    == MenuCommand::Open && m[k].ctrl_key == Some('o')
            &&& exists|k: int|
                0 <= k < m.len() && m[k].label == "&File/Reload\t"@ && m[k].command
                    == MenuCommand::Reload && m[k].ctrl_key == Some('r')
            &&& exists|k: int|
                0 <= k < m.len() && m[k].label == "&File/Quit\t"@ && m[k].command
                    == MenuCommand::Quit && m[k].ctrl_key == Some('q')
            &&& exists|k: int|
                0 <= k < m.len() && m[k].label == "&Options/Always Visible\t"@ && m[k].command
                    == MenuCommand::ToggleAlwaysVisible && m[k].kind == MenuItemKind::Toggle {
                    checked: s.always_visible,
                }
            &&& exists|k: int|
                0 <= k < m.len() && m[k].label == "&Options/Auto Show\t"@ && m[k].command
                    == MenuCommand::ToggleAutoShow && m[k].kind == MenuItemKind::Toggle {
                    checked: s.auto_show,
                }
            &&& exists|k: int|
                0 <= k < m.len() && m[k].label == "&Options/Settings...\t"@ && m[k].command
                    == MenuCommand::OpenSettings
            &&& exists|k: int|
                0 <= k < m.len() && m[k].label == "&View/Show\t"@ && m[k].command
                    == MenuCommand::Show
            &&& exists|k: int|
                0 <= k < m.len() && m[k].label == "&View/Hide\t"@ && m[k].command
                    == MenuCommand::Hide
            &&& forall|k: int|
                0 <= k < m.len() && m[k].label == "&View/Show\t"@ ==> m[k].command
                    == MenuCommand::Show
            &&& forall|k: int|
                0 <= k < m.len() && m[k].label == "&View/Hide\t"@ ==> m[k].command
                    == MenuCommand::Hide
            &&& forall|i: int|
                0 <= i < s.settings.recent_files.len() ==> exists|k: int|
                    0 <= k < m.len() && m[k].label == "&File/Open Recent/"@ + recent_label(
                        i as nat,
                        #[trigger] s.settings.recent_files[i],
                    ) && m[k].command == MenuCommand::OpenRecent(i as usize)
        }),
{
    reveal_strlit("&View/Show\t");
    reveal_strlit("&View/Hide\t");
    reveal_strlit("&File/Open...\t");
    reveal_strlit("&File/Open Recent/(Empty)");
    reveal_strlit("&File/Open Recent/");
    reveal_strlit("&File/Reload\t");
    reveal_strlit("&File/Quit\t");
    reveal_strlit("&Options/Always Visible\t");
    reveal_strlit("&Options/Auto Show\t");
    reveal_strlit("&Options/Settings...\t");
    let m = menu_spec(s);
    let list = s.settings.recent_files;
    let r = crate::menu::recent_entries(list);
    let n = r.len() as int;
    assert(m.len() == n + 8);
    assert(m[0].label == "&File/Open...\t"@);
    assert(m[n + 1].label == "&File/Reload\t"@);
    assert(m[n + 2].label == "&File/Quit\t"@);
    assert(m[n + 3].label == "&Options/Always Visible\t"@);
    assert(m[n + 4].label == "&Options/Auto Show\t"@);
    assert(m[n + 5].label == "&Options/Settings...\t"@);
    assert(m[n + 6].label == "&View/Show\t"@);
    assert(m[n + 7].label == "&View/Hide\t"@);
    assert forall|k: int| 0 <= k < m.len() && m[k].label == "&View/Show\t"@ implies m[k].command
        == MenuCommand::Show by {
        if k == 0 {
            assert(m[k].label[1] != "&View/Show\t"@[1]);
        } else if k <= n {
            assert(m[k] == r[k - 1]);
            assert(m[k].label[1] == 'F');
            assert(m[k].label[1] != "&View/Show\t"@[1]);
        } else if k < n + 6 {
            assert(m[k].label[1] != "&View/Show\t"@[1]);
        } else if k == n + 7 {
            assert(m[k].label[6] != "&View/Show\t"@[6]);
        }
    }
    assert forall|k: int| 0 <= k < m.len() && m[k].label == "&View/Hide\t"@ implies m[k].command
        == MenuCommand::Hide by {
        if k == 0 {
            assert(m[k].label[1] != "&View/Hide\t"@[1]);
        } else if k <= n {
            assert(m[k] == r[k - 1]);
            assert(m[k].label[1] == 'F');
            assert(m[k].label[1] != "&View/Hide\t"@[1]);
        } else if k < n + 6 {
            assert(m[k].label[1] != "&View/Hide\t"@[1]);
        } else if k == n + 6 {
            assert(m[k].label[6] != "&View/Hide\t"@[6]);
        }
    }
    assert forall|i: int| 0 <= i < list.len() implies exists|k: int|
        0 <= k < m.len() && m[k].label == "&File/Open Recent/"@ + recent_label(
            i as nat,
            #[trigger] list[i],
        )
            && m[k].command == MenuCommand::OpenRecent(i as usize) by {
        assert(m[i + 1] == r[i]);
    }
}

// ---------------------------------------------------------------------------
// Documents
/// A group opened by a destination control word (font table, colour table,
/// style sheet, document information, picture, generator note) adds nothing
/// to the visible text when its braces balance and its backslashes start only
/// control words or hexadecimal escapes `\'hh`: in particular, an escaped
/// character inside such a group (an author's name in the document
/// information, say) never shows.
pub proof fn law_destination_group_is_invisible(d: Seq<char>, c: Seq<char>, s: Seq<char>)
    requires
        is_destination(d),
        forall|i: int|
            0 <= i < c.len() && #[trigger] c[i] == '\\' ==> (i + 1 < c.len()
                && crate::text::is_ascii_alpha(c[i + 1])) || (i + 3 < c.len() && c[i + 1] == '\''
                && is_hex_char(c[i + 2]) && is_hex_char(c[i + 3])),
        balanced_braces(c),
    ensures
        rtf_plain_text(rtf1_header() + seq!['{', '\\'] + d + seq![' '] + c + seq!['}'] + s)
            == rtf_plain_text(rtf1_header() + s),
{
    let q = seq!['{', '\\'] + d + seq![' '] + c + seq!['}'];
    let t = q + s;
    assert(rtf1_header() + seq!['{', '\\'] + d + seq![' '] + c + seq!['}'] + s =~= rtf1_header()
        + t);
    lemma_header(t);
    lemma_header(s);
    lemma_destination_letters(d);
    let n = d.len() as int;
    let m = c.len() as int;
    assert(q.len() == 4 + n + m);
    assert(t[0] == '{' && t[1] == '\\');
    assert forall|i: int| 0 <= i < n implies #[trigger] t[2 + i] == d[i] by {}
    assert(t[2 + n] == ' ');
    assert forall|i: int| 0 <= i < m implies #[trigger] t[3 + n + i] == c[i] by {}
    assert(t[3 + n + m] == '}');
    let ah = after_header();
    // `{` opens a shown group
    let sa = RtfScan { stack: seq![false, false, false], skip_next: false };
    assert(seq![false, false].push(false) =~= seq![false, false, false]);
    assert(rtf_step(t, 0, ah) == (1int, sa, Seq::<char>::empty()));
    // the destination word marks it as skipped
    assert forall|k: int| 2 <= k < 2 + n implies crate::text::is_ascii_alpha(#[trigger] t[k]) by {
        assert(t[k] == d[k - 2]);
    }
    lemma_alpha_run_over(t, 2, n as nat);
    assert(param_run_end(t, 2 + n) == 2 + n);
    assert(t.subrange(2, 2 + n) =~= d);
    let base = seq![false, false, true];
    let sb = RtfScan { stack: base, skip_next: false };
    assert(seq![false, false, false].update(2, true) =~= base);
    assert(rtf_step(t, 1, sa) == (3 + n, sb, Seq::<char>::empty()));
    // the body of the group emits nothing
    assert forall|k: int| 0 <= k <= m implies #[trigger] t.subrange(3 + n, 3 + n + k) == c.take(
        k,
    ) by {
        assert(t.subrange(3 + n, 3 + n + k) =~= c.take(k));
    }
    assert forall|k: int| 0 <= k <= (3 + n + m) - (3 + n) implies 0 + brace_depth(
        #[trigger] t.subrange(3 + n, 3 + n + k),
    ) >= 0 by {
        assert(t.subrange(3 + n, 3 + n + k) == c.take(k));
    }
    assert(t.subrange(3 + n, 3 + n + m) == c.take(m));
    assert(c.take(m) =~= c);
    assert(escapes_are_words_or_hex(t, 3 + n, 3 + n + m)) by {
        assert forall|i: int| 3 + n <= i < 3 + n + m && #[trigger] t[i] == '\\' implies (i + 1 < 3
            + n + m && crate::text::is_ascii_alpha(t[i + 1])) || (i + 3 < 3 + n + m && t[i + 1]
            == '\'' && is_hex_char(t[i + 2]) && is_hex_char(t[i + 3])) by {
            let ci = i - 3 - n;
            assert(t[i] == c[ci]);
            if ci + 1 < m {
                assert(t[i + 1] == c[ci + 1]);
            }
            if ci + 3 < m {
                assert(t[i + 2] == c[ci + 2]);
                assert(t[i + 3] == c[ci + 3]);
            }
        }
    }
    assert(base + all_skipped(0) =~= base);
    lemma_skipped_tokens(t, 3 + n, 3 + n + m, base, 0);
    // `}` closes it
    assert(base.drop_last() =~= seq![false, false]);
    assert(rtf_step(t, 3 + n + m, sb) == (4 + n + m, ah, Seq::<char>::empty()));
    lemma_scan_shift(q, s, 0, ah);
    assert(rtf_scan(t, 0, ah) == Seq::<char>::empty() + rtf_scan(t, 1, sa));
    assert(rtf_scan(t, 1, sa) == Seq::<char>::empty() + rtf_scan(t, 3 + n, sb));
    assert(rtf_scan(t, 3 + n + m, sb) == Seq::<char>::empty() + rtf_scan(t, 4 + n + m, ah));
    assert(Seq::<char>::empty() + rtf_scan(t, 4 + n + m, ah) =~= rtf_scan(t, 4 + n + m, ah));
    assert(Seq::<char>::empty() + rtf_scan(t, 3 + n, sb) =~= rtf_scan(t, 3 + n, sb));
    assert(Seq::<char>::empty() + rtf_scan(t, 1, sa) =~= rtf_scan(t, 1, sa));
}

/// Plain text put in a minimal RTF document comes back unchanged, line breaks
/// included, when it holds no backslash, brace or carriage return, has no
/// white space at either end, and none of its lines ends in white space or is
/// left-over markup.
pub proof fn law_plain_text_in_rtf_round_trips(s: Seq<char>)
    requires
        forall|i: int|
            0 <= i < s.len() ==> #[trigger] s[i] != '\\' && s[i] != '{' && s[i] != '}' && s[i]
                != '\r',
        trim(s) == s,
        forall|k: int|
            0 <= k < split_lines(s).len() ==> trim_end(#[trigger] split_lines(s)[k])
                == split_lines(s)[k] && !is_rtf_junk(split_lines(s)[k]),
    ensures
        rtf_plain_text(rtf1_header() + s + seq!['}']) == s,
{
    let x = s + seq!['}'];
    let n = s.len() as int;
    assert(rtf1_header() + s + seq!['}'] =~= rtf1_header() + x);
    lemma_header(x);
    let ah = after_header();
    assert forall|i: int| 0 <= i < s.len() implies #[trigger] x[i] != '\\' && x[i] != '{'
        && x[i] != '}' && x[i] != '\r' by {
        assert(x[i] == s[i]);
    }
    lemma_plain_region(x, 0, n, ah);
    assert(x.subrange(0, n) =~= s);
    assert(x[n] == '}');
    let closed = RtfScan { stack: seq![false], skip_next: false };
    assert(seq![false, false].drop_last() =~= seq![false]);
    assert(rtf_step(x, n, ah) == (n + 1, closed, Seq::<char>::empty()));
    assert(rtf_scan(x, n, ah) == Seq::<char>::empty() + rtf_scan(
        x,
        n + 1,
        closed,
    ));
    assert(rtf_scan(x, n + 1, closed) == Seq::<char>::empty());
    assert(rtf_scan(x, 0, ah) =~= s);
    lemma_kept_all(split_lines(s));
    lemma_join_split(s);
}

// ---------------------------------------------------------------------------

/// Text that does not open with `{\rtf` is shown exactly as it was read.
pub proof fn law_plain_text_unchanged(raw: Seq<char>)
    requires
        !is_rtf_text(raw),
    ensures
        decoded_text(raw) == raw,
{
}

/// The visible text of an RTF document has no white space at either end,
/// and, unless it is empty, none of its lines is left-over markup or ends in
/// white space.
pub proof fn law_rtf_text_is_clean(raw: Seq<char>)
    ensures
        trim(rtf_plain_text(raw)) == rtf_plain_text(raw),
        rtf_plain_text(raw).len() > 0 ==> forall|k: int|
            0 <= k < split_lines(rtf_plain_text(raw)).len() ==> !is_rtf_junk(
                #[trigger] split_lines(rtf_plain_text(raw))[k],
            ) && trim_end(split_lines(rtf_plain_text(raw))[k]) == split_lines(
                rtf_plain_text(raw),
            )[k],
{
    let scanned = rtf_scan(raw, 0, initial_scan());
    let pieces = split_lines(scanned);
    let lines = kept_lines(pieces);
    let t = rtf_plain_text(raw);
    lemma_split_pieces_lack_separator(scanned, '\n');
    lemma_kept_lines_clean(pieces);
    if lines.len() == 0 {
        assert(join_lines(lines) =~= Seq::<char>::empty());
        assert(t =~= Seq::<char>::empty());
    } else {
        let joined = join_lines(lines);
        let first = lines[0];
        let last = lines.last();
        lemma_not_junk_has_text(first);
        lemma_not_junk_has_text(last);
        assert(trim_end(last) == last);
        assert(trim(last).len() > 0);
        assert(last.len() > 0) by {
            crate::text::lemma_trim_start_shape(trim_end(last));
        }
        lemma_trim_end_fixed(last);
        lemma_join_last(lines);
        // the joined text ends in no white space
        assert(trim_end(joined) == joined);
        // only the first line loses its leading white space
        let head = trim_start(first);
        assert(trim(first) == head);
        crate::text::lemma_trim_start_shape(first);
        lemma_join_first(lines, head);
        let rest = joined.skip(first.len() as int);
        assert(joined =~= first + rest);
        lemma_trim_start_concat(first, rest);
        let cleaned = lines.update(0, head);
        assert(t == join_lines(cleaned));
        // the first line, trimmed at its start, is still clean
        assert(first.len() > 0);
        lemma_trim_end_fixed(first);
        assert(head.last() == first.last());
        assert(trim_end(head) == head);
        lemma_trim_start_idempotent(first);
        assert(trim(head) == head);
        assert(!is_rtf_junk(head));
        assert forall|k: int, i: int|
            0 <= k < cleaned.len() && 0 <= i < cleaned[k].len() implies #[trigger] cleaned[k][i]
                != '\n' by {
            if k == 0 {
                assert(cleaned[0][i] == first[i + first.len() - head.len()]);
            } else {
                assert(cleaned[k] == lines[k]);
            }
        }
        lemma_split_join(cleaned);
        assert forall|k: int| 0 <= k < split_lines(t).len() implies !is_rtf_junk(
            #[trigger] split_lines(t)[k],
        ) && trim_end(split_lines(t)[k]) == split_lines(t)[k] by {
            if k > 0 {
                assert(cleaned[k] == lines[k]);
            }
        }
        // the text as a whole is trimmed
        assert(head.len() > 0);
        lemma_join_first(cleaned, head);
        assert(t[0] == head[0]);
        crate::text::lemma_trim_start_shape(first);
        assert(!crate::text::is_white_space(t[0]));
        assert(cleaned.last().len() > 0);
        lemma_join_last(cleaned);
        if cleaned.len() == 1 {
            assert(cleaned.last() == head);
        } else {
            assert(cleaned.last() == last);
        }
        assert(!crate::text::is_white_space(t.last()));
        assert(trim_end(t) == t);
        assert(trim_start(t) == t);
    }
}

} // verus!
