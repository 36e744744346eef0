//! The viewer's state machine: whether the text is shown or hidden and why,
//! what the user chose in the menus and settings, and the file history.
//!
//! Every change goes through [`AppState::apply`], which takes one event and
//! answers with the work that the window must do ([`StateEffects`]). Time is
//! passed in as milliseconds on a clock of the caller's choosing, so that the
//! "copied" notice can expire; focus changes carry a generation number so that
//! a hide scheduled before the window was focused again is ignored.
use vstd::prelude::*;
use vstd::string::StringExecFns;
use crate::paths::{copy_bytes, display_path, path_display, paths_match, same_path};

verus! {

/// How many files the "Open Recent" menu remembers.
pub const MAX_RECENT_FILES: usize = 8;

/// How long the "copied" notice stays up, in milliseconds.
pub const COPY_NOTICE_MILLIS: u64 = 1000;

/// The bit pattern of the `f64` value 1.0, the default window opacity.
pub const DEFAULT_OPACITY_BITS: u64 = 0x3ff0_0000_0000_0000;

pub const DEFAULT_WINDOW_X: i32 = 100;

pub const DEFAULT_WINDOW_Y: i32 = 100;

pub const DEFAULT_WINDOW_W: i32 = 500;

pub const DEFAULT_WINDOW_H: i32 = 500;

/// Why the text is hidden.
#[derive(Clone, Copy, Debug, PartialEq, Eq, Structural)]
pub enum HideReason {
    /// Hidden by the user; the focus event that follows the hide is ignored once.
    Temporary { ignored_focus_after_hide: bool },
    /// Hidden because the window lost the focus.
    FocusLoss,
    /// Hidden after a copy, while the "copied" notice shows.
    CopyNotice,
}

/// Whether the text is shown.
#[derive(Clone, Copy, Debug, PartialEq, Eq, Structural)]
pub enum VisibilityState {
    Visible,
    Hidden(HideReason),
}

/// The work that an event asks of the window.
#[derive(Clone, Copy, Debug, PartialEq, Eq, Structural)]
pub struct StateEffects {
    pub sync_title: bool,
    pub sync_menu: bool,
    pub apply_visibility: bool,
    pub focus_editor: bool,
    pub redraw_hidden_preview: bool,
    /// Hide the text after a short delay, unless the focus generation moves on.
    pub schedule_hide_generation: Option<u64>,
}

/// An event for the state machine.
pub enum StateAction {
    /// A file was read; the path is the bytes of the operating system's path string.
    FileLoaded { path: Vec<u8> },
    FileLoadFailed(String),
    Show,
    HideTemporarily,
    SetAlwaysVisible(bool),
    SetAutoShow(bool),
    Focused,
    Unfocused,
    DeferredHideOnUnfocus(u64),
    Copied,
    Tick,
}

/// The settings that are kept between runs.
#[derive(Debug)]
pub struct SavedState {
    pub always_visible: bool,
    pub auto_show: bool,
    pub hide_on_copy: bool,
    pub dark_mode: bool,
    /// The window opacity, as the bits of an `f64`.
    pub opacity_bits: u64,
    /// The last file opened, as the bytes of its path; paths follow the Unix
    /// rules of [`crate::paths`] (`/` separates components).
    pub last_file: Option<Vec<u8>>,
    /// The file history, newest first, compared by the Unix rules of [`crate::paths`].
    pub recent_files: Vec<Vec<u8>>,
    pub window_x: i32,
    pub window_y: i32,
    pub window_w: i32,
    pub window_h: i32,
}

/// The state of the viewer.
pub struct AppState {
    /// The file on screen, as the bytes of its path; paths follow the Unix
    /// rules of [`crate::paths`].
    pub current_file: Option<Vec<u8>>,
    pub visibility: VisibilityState,
    pub always_visible: bool,
    pub auto_show: bool,
    pub hide_on_copy: bool,
    pub dark_mode: bool,
    /// The window opacity, as the bits of an `f64`.
    pub opacity_bits: u64,
    /// When the "copied" notice ends, in milliseconds.
    pub copied_notice_until: Option<u64>,
    pub last_error: Option<String>,
    pub settings_dirty: bool,
    pub settings: SavedState,
    pub focus_generation: u64,
}

// ---------------------------------------------------------------------------
// Views
// ---------------------------------------------------------------------------

pub struct SavedStateView {
    pub always_visible: bool,
    pub auto_show: bool,
    pub hide_on_copy: bool,
    pub dark_mode: bool,
    pub opacity_bits: u64,
    pub last_file: Option<Seq<u8>>,
    pub recent_files: Seq<Seq<u8>>,
    pub window_x: i32,
    pub window_y: i32,
    pub window_w: i32,
    pub window_h: i32,
}

pub struct AppStateView {
    pub current_file: Option<Seq<u8>>,
    pub visibility: VisibilityState,
    pub always_visible: bool,
    pub auto_show: bool,
    pub hide_on_copy: bool,
    pub dark_mode: bool,
    pub opacity_bits: u64,
    pub copied_notice_until: Option<u64>,
    pub last_error: Option<Seq<char>>,
    pub settings_dirty: bool,
    pub settings: SavedStateView,
    pub focus_generation: u64,
}

/// The text of an optional string.
pub open spec fn opt_text(o: Option<String>) -> Option<Seq<char>> {
    match o {
        Some(s) => Some(s@),
        None => None,
    }
}

/// The bytes of an optional path.
pub open spec fn opt_bytes(o: Option<Vec<u8>>) -> Option<Seq<u8>> {
    match o {
        Some(p) => Some(p@),
        None => None,
    }
}

/// The bytes of a list of paths.
pub open spec fn byte_views(v: Seq<Vec<u8>>) -> Seq<Seq<u8>> {
    v.map_values(|p: Vec<u8>| p@)
}

impl View for SavedState {
    type V = SavedStateView;

    open spec fn view(&self) -> SavedStateView {
        SavedStateView {
            always_visible: self.always_visible,
            auto_show: self.auto_show,
            hide_on_copy: self.hide_on_copy,
            dark_mode: self.dark_mode,
            opacity_bits: self.opacity_bits,
            last_file: opt_bytes(self.last_file),
            recent_files: byte_views(self.recent_files@),
            window_x: self.window_x,
            window_y: self.window_y,
            window_w: self.window_w,
            window_h: self.window_h,
        }
    }
}

impl View for AppState {
    type V = AppStateView;

    open spec fn view(&self) -> AppStateView {
        AppStateView {
            current_file: opt_bytes(self.current_file),
            visibility: self.visibility,
            always_visible: self.always_visible,
            auto_show: self.auto_show,
            hide_on_copy: self.hide_on_copy,
            dark_mode: self.dark_mode,
            opacity_bits: self.opacity_bits,
            copied_notice_until: self.copied_notice_until,
            last_error: opt_text(self.last_error),
            settings_dirty: self.settings_dirty,
            settings: self.settings@,
            focus_generation: self.focus_generation,
        }
    }
}

// ---------------------------------------------------------------------------
// The model
// ---------------------------------------------------------------------------

/// The settings of a first run.
pub open spec fn default_settings() -> SavedStateView {
    SavedStateView {
        always_visible: false,
        auto_show: true,
        hide_on_copy: true,
        dark_mode: false,
        opacity_bits: DEFAULT_OPACITY_BITS,
        last_file: None,
        recent_files: Seq::empty(),
        window_x: DEFAULT_WINDOW_X,
        window_y: DEFAULT_WINDOW_Y,
        window_w: DEFAULT_WINDOW_W,
        window_h: DEFAULT_WINDOW_H,
    }
}

/// The state at start-up, from the saved settings: the last file is the
/// current one, the text is shown and nothing is pending.
pub open spec fn initial_state(settings: SavedStateView) -> AppStateView {
    AppStateView {
        current_file: settings.last_file,
        visibility: VisibilityState::Visible,
        always_visible: settings.always_visible,
        auto_show: settings.auto_show,
        hide_on_copy: settings.hide_on_copy,
        dark_mode: settings.dark_mode,
        opacity_bits: settings.opacity_bits,
        copied_notice_until: None,
        last_error: None,
        settings_dirty: false,
        settings: settings,
        focus_generation: 0,
    }
}

/// No work for the window.
pub open spec fn no_effects() -> StateEffects {
    StateEffects {
        sync_title: false,
        sync_menu: false,
        apply_visibility: false,
        focus_editor: false,
        redraw_hidden_preview: false,
        schedule_hide_generation: None,
    }
}

pub open spec fn is_shown(s: AppStateView) -> bool {
    s.visibility == VisibilityState::Visible
}

/// The next focus generation; it wraps around after the largest `u64`.
pub open spec fn next_generation(g: u64) -> u64 {
    if g == u64::MAX {
        0
    } else {
        (g + 1) as u64
    }
}

/// Showing the text: it becomes visible and the notice ends; the flag says
/// whether anything on screen changes.
pub open spec fn after_show(s: AppStateView) -> (AppStateView, bool) {
    (
        AppStateView { visibility: VisibilityState::Visible, copied_notice_until: None, ..s },
        !is_shown(s) || s.copied_notice_until is Some,
    )
}

/// Hiding the text for a reason: nothing happens while "always visible" is on;
/// otherwise the text is hidden, and a copy starts the notice, which ends
/// `COPY_NOTICE_MILLIS` after `now`. The flag says whether the text was shown.
pub open spec fn after_hide(s: AppStateView, reason: HideReason, now: u64) -> (AppStateView, bool) {
    if s.always_visible {
        (s, false)
    } else {
        (
            AppStateView {
                visibility: VisibilityState::Hidden(reason),
                copied_notice_until: if reason == HideReason::CopyNotice {
                    Some((now + COPY_NOTICE_MILLIS) as u64)
                } else {
                    None
                },
                ..s
            },
            is_shown(s),
        )
    }
}

/// Whether a focus event shows the text: not after a manual hide, not while
/// the notice runs, and only with "auto show" or "always visible" on.
pub open spec fn auto_show_on_focus(s: AppStateView, now: u64) -> bool {
    if s.visibility matches VisibilityState::Hidden(HideReason::Temporary { .. }) {
        false
    } else if s.copied_notice_until matches Some(deadline) && now < deadline {
        false
    } else {
        s.auto_show || s.always_visible
    }
}

/// The list without the entries that name the same file as `p`, in order.
pub open spec fn without_path(list: Seq<Seq<u8>>, p: Seq<u8>) -> Seq<Seq<u8>>
    decreases list.len(),
{
    if list.len() == 0 {
        Seq::empty()
    } else {
        let rest = without_path(list.drop_last(), p);
        if same_path(list.last(), p) {
            rest
        } else {
            rest.push(list.last())
        }
    }
}

/// The first `n` entries of a list (all of it when it is shorter).
pub open spec fn truncated(list: Seq<Seq<u8>>, n: nat) -> Seq<Seq<u8>> {
    if list.len() <= n {
        list
    } else {
        list.take(n as int)
    }
}

/// The file history once `p` is opened: `p` first, then the earlier entries
/// that name other files, at most `MAX_RECENT_FILES` in all.
pub open spec fn recent_after_open(list: Seq<Seq<u8>>, p: Seq<u8>) -> Seq<Seq<u8>> {
    truncated(seq![p] + without_path(list, p), MAX_RECENT_FILES as nat)
}

/// Effects that redraw what visibility changes touch.
pub open spec fn visibility_effects(changed: bool, focus: bool) -> StateEffects {
    StateEffects {
        sync_title: false,
        sync_menu: false,
        apply_visibility: changed,
        focus_editor: focus && changed,
        redraw_hidden_preview: !focus && changed,
        schedule_hide_generation: None,
    }
}

/// What one event does: the next state and the work for the window.
pub open spec fn apply_spec(s: AppStateView, action: StateAction, now: u64) -> (
    AppStateView,
    StateEffects,
) {
    match action {
        StateAction::FileLoaded { path } => {
            let p = path@;
            (
                AppStateView {
                    current_file: Some(p),
                    visibility: VisibilityState::Visible,
                    copied_notice_until: None,
                    last_error: None,
                    settings_dirty: true,
                    settings: SavedStateView {
                        last_file: Some(p),
                        recent_files: recent_after_open(s.settings.recent_files, p),
                        ..s.settings
                    },
                    ..s
                },
                StateEffects {
                    sync_title: true,
                    sync_menu: true,
                    apply_visibility: true,
                    focus_editor: true,
                    redraw_hidden_preview: false,
                    schedule_hide_generation: None,
                },
            )
        },
        StateAction::FileLoadFailed(err) => (
            AppStateView { last_error: Some(err@), ..s },
            StateEffects { redraw_hidden_preview: true, ..no_effects() },
        ),
        StateAction::Show => {
            let (t, changed) = after_show(s);
            (t, visibility_effects(changed, true))
        },
        StateAction::HideTemporarily => {
            let (t, changed) = after_hide(
                s,
                HideReason::Temporary { ignored_focus_after_hide: false },
                now,
            );
            (t, visibility_effects(changed, false))
        },
        StateAction::SetAlwaysVisible(enabled) => {
            let t = AppStateView { always_visible: enabled, settings_dirty: true, ..s };
            if enabled {
                let (u, changed) = after_show(t);
                (u, StateEffects { sync_menu: true, ..visibility_effects(changed, true) })
            } else {
                (t, StateEffects { sync_menu: true, ..no_effects() })
            }
        },
        StateAction::SetAutoShow(enabled) => (
            AppStateView { auto_show: enabled, settings_dirty: true, ..s },
            StateEffects { sync_menu: true, ..no_effects() },
        ),
        StateAction::Focused => {
            let t = AppStateView { focus_generation: next_generation(s.focus_generation), ..s };
            if t.visibility == VisibilityState::Hidden(
                HideReason::Temporary { ignored_focus_after_hide: false },
            ) {
                (
                    AppStateView {
                        visibility: VisibilityState::Hidden(
                            HideReason::Temporary { ignored_focus_after_hide: true },
                        ),
                        ..t
                    },
                    no_effects(),
                )
            } else if is_shown(t) || !auto_show_on_focus(t, now) {
                (t, no_effects())
            } else {
                let (u, changed) = after_show(t);
                (u, visibility_effects(changed, true))
            }
        },
        StateAction::Unfocused => {
            if s.always_visible || !is_shown(s) {
                if s.visibility == VisibilityState::Hidden(
                    HideReason::Temporary { ignored_focus_after_hide: true },
                ) {
                    (
                        AppStateView {
                            visibility: VisibilityState::Hidden(HideReason::FocusLoss),
                            ..s
                        },
                        no_effects(),
                    )
                } else {
                    (s, no_effects())
                }
            } else {
                let g = next_generation(s.focus_generation);
                (
                    AppStateView { focus_generation: g, ..s },
                    StateEffects { schedule_hide_generation: Some(g), ..no_effects() },
                )
            }
        },
        StateAction::DeferredHideOnUnfocus(expected) => {
            if s.focus_generation == expected && !s.always_visible {
                let (t, changed) = after_hide(s, HideReason::FocusLoss, now);
                (t, visibility_effects(changed, false))
            } else {
                (s, no_effects())
            }
        },
        StateAction::Copied => {
            if s.hide_on_copy && !s.always_visible && is_shown(s) {
                let (t, changed) = after_hide(s, HideReason::CopyNotice, now);
                (
                    t,
                    StateEffects {
                        apply_visibility: changed,
                        redraw_hidden_preview: true,
                        ..no_effects()
                    },
                )
            } else {
                (s, no_effects())
            }
        },
        StateAction::Tick => {
            if s.copied_notice_until matches Some(deadline) && now >= deadline {
                (
                    AppStateView { copied_notice_until: None, ..s },
                    StateEffects { redraw_hidden_preview: true, ..no_effects() },
                )
            } else {
                (s, no_effects())
            }
        },
    }
}


/// The state once the preferences are written into the saved settings; the
/// settings are then no longer dirty.
pub open spec fn persisted(s: AppStateView) -> AppStateView {
    AppStateView {
        settings: SavedStateView {
            always_visible: s.always_visible,
            auto_show: s.auto_show,
            hide_on_copy: s.hide_on_copy,
            dark_mode: s.dark_mode,
            opacity_bits: s.opacity_bits,
            ..s.settings
        },
        settings_dirty: false,
        ..s
    }
}

/// The state once the window's position and size are recorded; a change
/// makes the settings dirty.
pub open spec fn with_window_geometry(s: AppStateView, x: i32, y: i32, w: i32, h: i32) -> AppStateView {
    if s.settings.window_x != x || s.settings.window_y != y || s.settings.window_w != w
        || s.settings.window_h != h {
        AppStateView {
            settings: SavedStateView {
                window_x: x,
                window_y: y,
                window_w: w,
                window_h: h,
                ..s.settings
            },
            settings_dirty: true,
            ..s
        }
    } else {
        s
    }
}

/// Whether the "copied" notice is on screen at `now`.
pub open spec fn notice_showing(s: AppStateView, now: u64) -> bool {
    s.copied_notice_until matches Some(deadline) && now < deadline
}

/// The window title: the current file's path as `Path::display` shows it,
/// or a note that none is open.
pub open spec fn title_text(s: AppStateView) -> Seq<char> {
    match s.current_file {
        Some(p) => path_display(p),
        None => "No file currently open"@,
    }
}


/// No two entries of the file history name the same file.
pub open spec fn distinct_paths(list: Seq<Seq<u8>>) -> bool {
    forall|i: int, j: int| 0 <= i < j < list.len() ==> !same_path(#[trigger] list[i], #[trigger] list[j])
}

/// What every state reached from well-formed settings satisfies: with "always
/// visible" on the text is shown, the "copied" notice runs only while the text
/// is hidden for a copy, the current file is the last file of the settings,
/// and the file history is short and names each file once.
pub open spec fn state_wf(s: AppStateView) -> bool {
    &&& s.always_visible ==> is_shown(s)
    &&& s.copied_notice_until is Some ==> s.visibility == VisibilityState::Hidden(HideReason::CopyNotice)
    &&& s.current_file == s.settings.last_file
    &&& s.settings.recent_files.len() <= MAX_RECENT_FILES
    &&& distinct_paths(s.settings.recent_files)
}

/// Saved settings whose file history is short and names each file once.
pub open spec fn settings_wf(settings: SavedStateView) -> bool {
    &&& settings.recent_files.len() <= MAX_RECENT_FILES
    &&& distinct_paths(settings.recent_files)
}

/// The clock values at which an event can be applied: a copy must be able to
/// set the end of its notice.
pub open spec fn action_time_ok(action: StateAction, now: u64) -> bool {
    action is Copied ==> now <= u64::MAX - COPY_NOTICE_MILLIS
}

// ---------------------------------------------------------------------------
// Executable code
// ---------------------------------------------------------------------------

impl StateEffects {
    /// No work for the window.
    pub fn none() -> (e: StateEffects)
        ensures
            e == no_effects(),
    {
        StateEffects {
            sync_title: false,
            sync_menu: false,
            apply_visibility: false,
            focus_editor: false,
            redraw_hidden_preview: false,
            schedule_hide_generation: None,
        }
    }

    fn for_visibility(changed: bool, focus: bool) -> (e: StateEffects)
        ensures
            e == visibility_effects(changed, focus),
    {
        StateEffects {
            sync_title: false,
            sync_menu: false,
            apply_visibility: changed,
            focus_editor: focus && changed,
            redraw_hidden_preview: !focus && changed,
            schedule_hide_generation: None,
        }
    }
}

impl Default for StateEffects {
    fn default() -> (e: StateEffects)
        ensures
            e == no_effects(),
    {
        StateEffects::none()
    }
}

impl Default for SavedState {
    fn default() -> (s: SavedState)
        ensures
            s@ == default_settings(),
    {
        let s = SavedState {
            always_visible: false,
            auto_show: true,
            hide_on_copy: true,
            dark_mode: false,
            opacity_bits: DEFAULT_OPACITY_BITS,
            last_file: None,
            recent_files: Vec::new(),
            window_x: DEFAULT_WINDOW_X,
            window_y: DEFAULT_WINDOW_Y,
            window_w: DEFAULT_WINDOW_W,
            window_h: DEFAULT_WINDOW_H,
        };
        proof {
            assert(s@.recent_files =~= Seq::<Seq<u8>>::empty());
        }
        s
    }
}

impl SavedState {
    /// The saved window position and size: x, y, width, height.
    pub fn window_rect(&self) -> (r: (i32, i32, i32, i32))
        ensures
            r == (self.window_x, self.window_y, self.window_w, self.window_h),
    {
        (self.window_x, self.window_y, self.window_w, self.window_h)
    }
}

fn copy_opt_bytes(o: &Option<Vec<u8>>) -> (r: Option<Vec<u8>>)
    ensures
        opt_bytes(r) == opt_bytes(*o),
{
    match o {
        Some(p) => Some(copy_bytes(p)),
        None => None,
    }
}

/// The file history once `current` is opened, computed.
fn recent_list_after_open(list: &Vec<Vec<u8>>, current: &Vec<u8>) -> (r: Vec<Vec<u8>>)
    ensures
        byte_views(r@) == recent_after_open(byte_views(list@), current@),
{
    let ghost all = byte_views(list@);
    let ghost p = current@;
    let mut out: Vec<Vec<u8>> = Vec::new();
    out.push(copy_bytes(current));
    let mut i: usize = 0;
    proof {
        assert(all.take(0) =~= Seq::<Seq<u8>>::empty());
        assert(byte_views(out@) =~= seq![p]);
        assert(seq![p] + without_path(Seq::<Seq<u8>>::empty(), p) =~= seq![p]);
    }
    while i < list.len()
        invariant
            i <= list.len(),
            all == byte_views(list@),
            p == current@,
            byte_views(out@) == truncated(
                seq![p] + without_path(all.take(i as int), p),
                MAX_RECENT_FILES as nat,
            ),
        decreases list.len() - i,
    {
        let ghost before = seq![p] + without_path(all.take(i as int), p);
        proof {
            assert(all.take(i + 1).drop_last() =~= all.take(i as int));
            assert(all.take(i + 1).last() == list@[i as int]@);
        }
        let same = paths_match(&list[i], current);
        if !same {
            let ghost after = before.push(list@[i as int]@);
            proof {
                assert(seq![p] + without_path(all.take(i + 1), p) =~= after);
            }
            if out.len() < MAX_RECENT_FILES {
                let entry = copy_bytes(&list[i]);
                let ghost old_out = out@;
                proof {
                    assert(byte_views(old_out).len() == old_out.len());
                    assert(byte_views(old_out) == before);
                }
                out.push(entry);
                proof {
                    assert(byte_views(out@) =~= byte_views(old_out).push(entry@));
                    assert(byte_views(out@) =~= after);
                }
            } else {
                proof {
                    assert(after.take(MAX_RECENT_FILES as int) =~= before.take(
                        MAX_RECENT_FILES as int,
                    ));
                }
            }
        } else {
            proof {
                assert(seq![p] + without_path(all.take(i + 1), p) =~= before);
            }
        }
        i = i + 1;
    }
    proof {
        assert(all.take(list.len() as int) =~= all);
    }
    out
}

impl AppState {
    /// The state at start-up, from the saved settings.
    pub fn from_settings(settings: SavedState) -> (s: AppState)
        ensures
            s@ == initial_state(settings@),
    {
        AppState {
            current_file: copy_opt_bytes(&settings.last_file),
            visibility: VisibilityState::Visible,
            always_visible: settings.always_visible,
            auto_show: settings.auto_show,
            hide_on_copy: settings.hide_on_copy,
            dark_mode: settings.dark_mode,
            opacity_bits: settings.opacity_bits,
            copied_notice_until: None,
            last_error: None,
            settings_dirty: false,
            settings,
            focus_generation: 0,
        }
    }

    /// Whether the text is shown.
    pub fn is_visible(&self) -> (r: bool)
        ensures
            r == is_shown(self@),
    {
        match self.visibility {
            VisibilityState::Visible => true,
            VisibilityState::Hidden(_) => false,
        }
    }

    /// Whether a focus event at `now` shows the text.
    pub fn should_auto_show_on_focus(&self, now: u64) -> (r: bool)
        ensures
            r == auto_show_on_focus(self@, now),
    {
        if let VisibilityState::Hidden(HideReason::Temporary { .. }) = self.visibility {
            return false;
        }
        if let Some(deadline) = self.copied_notice_until {
            if now < deadline {
                return false;
            }
        }
        self.auto_show || self.always_visible
    }

    fn show(&mut self) -> (changed: bool)
        ensures
            (final(self)@, changed) == after_show(old(self)@),
    {
        let changed = !self.is_visible() || self.copied_notice_until.is_some();
        self.visibility = VisibilityState::Visible;
        self.copied_notice_until = None;
        changed
    }

    fn hide_for(&mut self, reason: HideReason, now: u64) -> (changed: bool)
        requires
            reason == HideReason::CopyNotice ==> now <= u64::MAX - COPY_NOTICE_MILLIS,
        ensures
            (final(self)@, changed) == after_hide(old(self)@, reason, now),
    {
        if self.always_visible {
            return false;
        }
        let changed = self.is_visible();
        self.visibility = VisibilityState::Hidden(reason);
        self.copied_notice_until = match reason {
            HideReason::CopyNotice => Some(now + COPY_NOTICE_MILLIS),
            HideReason::Temporary { .. } | HideReason::FocusLoss => None,
        };
        changed
    }

    fn push_recent_file(&mut self)
        ensures
            final(self)@ == (match old(self)@.current_file {
                Some(p) => AppStateView {
                    settings: SavedStateView {
                        recent_files: recent_after_open(old(self)@.settings.recent_files, p),
                        ..old(self)@.settings
                    },
                    ..old(self)@
                },
                None => old(self)@,
            }),
    {
        match &self.current_file {
            Some(current) => {
                let updated = recent_list_after_open(&self.settings.recent_files, current);
                self.settings.recent_files = updated;
            },
            None => {},
        }
    }

    /// Applies one event at time `now` (milliseconds) and returns the work
    /// that the window must do.
    pub fn apply(&mut self, action: StateAction, now: u64) -> (effects: StateEffects)
        requires
            action_time_ok(action, now),
        ensures
            (final(self)@, effects) == apply_spec(old(self)@, action, now),
    {
        match action {
            StateAction::FileLoaded { path } => {
                self.current_file = Some(copy_bytes(&path));
                self.settings.last_file = Some(path);
                self.push_recent_file();
                self.visibility = VisibilityState::Visible;
                self.copied_notice_until = None;
                self.last_error = None;
                self.settings_dirty = true;
                StateEffects {
                    sync_title: true,
                    sync_menu: true,
                    apply_visibility: true,
                    focus_editor: true,
                    redraw_hidden_preview: false,
                    schedule_hide_generation: None,
                }
            },
            StateAction::FileLoadFailed(err) => {
                self.last_error = Some(err);
                StateEffects { redraw_hidden_preview: true, ..StateEffects::none() }
            },
            StateAction::Show => {
                let changed = self.show();
                StateEffects::for_visibility(changed, true)
            },
            StateAction::HideTemporarily => {
                let changed = self.hide_for(
                    HideReason::Temporary { ignored_focus_after_hide: false },
                    now,
                );
                StateEffects::for_visibility(changed, false)
            },
            StateAction::SetAlwaysVisible(enabled) => {
                self.always_visible = enabled;
                self.settings_dirty = true;
                if enabled {
                    let changed = self.show();
                    StateEffects { sync_menu: true, ..StateEffects::for_visibility(changed, true) }
                } else {
                    StateEffects { sync_menu: true, ..StateEffects::none() }
                }
            },
            StateAction::SetAutoShow(enabled) => {
                self.auto_show = enabled;
                self.settings_dirty = true;
                StateEffects { sync_menu: true, ..StateEffects::none() }
            },
            StateAction::Focused => {
                self.focus_generation = if self.focus_generation == u64::MAX {
                    0
                } else {
                    self.focus_generation + 1
                };
                if self.visibility == VisibilityState::Hidden(
                    HideReason::Temporary { ignored_focus_after_hide: false },
                ) {
                    self.visibility = VisibilityState::Hidden(
                        HideReason::Temporary { ignored_focus_after_hide: true },
                    );
                    StateEffects::none()
                } else if self.is_visible() || !self.should_auto_show_on_focus(now) {
                    StateEffects::none()
                } else {
                    let changed = self.show();
                    StateEffects::for_visibility(changed, true)
                }
            },
            StateAction::Unfocused => {
                if self.always_visible || !self.is_visible() {
                    if self.visibility == VisibilityState::Hidden(
                        HideReason::Temporary { ignored_focus_after_hide: true },
                    ) {
                        self.visibility = VisibilityState::Hidden(HideReason::FocusLoss);
                    }
                    StateEffects::none()
                } else {
                    self.focus_generation = if self.focus_generation == u64::MAX {
                        0
                    } else {
                        self.focus_generation + 1
                    };
                    StateEffects {
                        schedule_hide_generation: Some(self.focus_generation),
                        ..StateEffects::none()
                    }
                }
            },
            StateAction::DeferredHideOnUnfocus(expected) => {
                if self.focus_generation == expected && !self.always_visible {
                    let changed = self.hide_for(HideReason::FocusLoss, now);
                    StateEffects::for_visibility(changed, false)
                } else {
                    StateEffects::none()
                }
            },
            StateAction::Copied => {
                let should_hide = self.hide_on_copy && !self.always_visible && self.is_visible();
                if should_hide {
                    let changed = self.hide_for(HideReason::CopyNotice, now);
                    StateEffects {
                        apply_visibility: changed,
                        redraw_hidden_preview: true,
                        ..StateEffects::none()
                    }
                } else {
                    StateEffects::none()
                }
            },
            StateAction::Tick => {
                let expired = match self.copied_notice_until {
                    Some(deadline) => now >= deadline,
                    None => false,
                };
                if expired {
                    self.copied_notice_until = None;
                    StateEffects { redraw_hidden_preview: true, ..StateEffects::none() }
                } else {
                    StateEffects::none()
                }
            },
        }
    }

    /// Shows the text when it is hidden and hides it when it is shown.
    pub fn toggle_visibility(&mut self, now: u64) -> (effects: StateEffects)
        ensures
            (final(self)@, effects) == apply_spec(
                old(self)@,
                if is_shown(old(self)@) {
                    StateAction::HideTemporarily
                } else {
                    StateAction::Show
                },
                now,
            ),
    {
        if self.is_visible() {
            self.apply(StateAction::HideTemporarily, now)
        } else {
            self.apply(StateAction::Show, now)
        }
    }

    /// Turns "always visible" over.
    pub fn toggle_always_visible(&mut self, now: u64) -> (effects: StateEffects)
        ensures
            (final(self)@, effects) == apply_spec(
                old(self)@,
                StateAction::SetAlwaysVisible(!old(self)@.always_visible),
                now,
            ),
    {
        let enabled = !self.always_visible;
        self.apply(StateAction::SetAlwaysVisible(enabled), now)
    }

    /// Turns "auto show on focus" over.
    pub fn toggle_auto_show(&mut self, now: u64) -> (effects: StateEffects)
        ensures
            (final(self)@, effects) == apply_spec(
                old(self)@,
                StateAction::SetAutoShow(!old(self)@.auto_show),
                now,
            ),
    {
        let enabled = !self.auto_show;
        self.apply(StateAction::SetAutoShow(enabled), now)
    }

    /// Sets "hide on copy"; the settings become dirty.
    pub fn set_hide_on_copy(&mut self, enabled: bool)
        ensures
            final(self)@ == (AppStateView { hide_on_copy: enabled, settings_dirty: true, ..old(self)@ }),
    {
        self.hide_on_copy = enabled;
        self.settings_dirty = true;
    }

    /// Sets dark mode; the settings become dirty.
    pub fn set_dark_mode(&mut self, enabled: bool)
        ensures
            final(self)@ == (AppStateView { dark_mode: enabled, settings_dirty: true, ..old(self)@ }),
    {
        self.dark_mode = enabled;
        self.settings_dirty = true;
    }

    /// Sets the window opacity (the bits of an `f64`); the settings become dirty.
    pub fn set_opacity_bits(&mut self, bits: u64)
        ensures
            final(self)@ == (AppStateView { opacity_bits: bits, settings_dirty: true, ..old(self)@ }),
    {
        self.opacity_bits = bits;
        self.settings_dirty = true;
    }

    /// Writes the preferences into the saved settings, unless `only_if_dirty`
    /// asks for it and nothing changed; returns whether the settings are to be
    /// stored now.
    pub fn persist_settings(&mut self, only_if_dirty: bool) -> (store: bool)
        ensures
            store == (!only_if_dirty || old(self)@.settings_dirty),
            final(self)@ == if store {
                persisted(old(self)@)
            } else {
                old(self)@
            },
    {
        if only_if_dirty && !self.settings_dirty {
            return false;
        }
        self.settings.always_visible = self.always_visible;
        self.settings.auto_show = self.auto_show;
        self.settings.hide_on_copy = self.hide_on_copy;
        self.settings.dark_mode = self.dark_mode;
        self.settings.opacity_bits = self.opacity_bits;
        self.settings_dirty = false;
        true
    }

    /// Records the window's position and size.
    pub fn capture_window_geometry(&mut self, x: i32, y: i32, w: i32, h: i32)
        ensures
            final(self)@ == with_window_geometry(old(self)@, x, y, w, h),
    {
        let changed = self.settings.window_x != x || self.settings.window_y != y
            || self.settings.window_w != w || self.settings.window_h != h;
        if changed {
            self.settings.window_x = x;
            self.settings.window_y = y;
            self.settings.window_w = w;
            self.settings.window_h = h;
            self.settings_dirty = true;
        }
    }

    /// Whether the clock must keep ticking: a "copied" notice is pending.
    pub fn needs_notice_tick(&self) -> (r: bool)
        ensures
            r == (self@.copied_notice_until is Some),
    {
        self.copied_notice_until.is_some()
    }

    /// Whether the "copied" notice is on screen at `now`.
    pub fn copy_notice_showing(&self, now: u64) -> (r: bool)
        ensures
            r == notice_showing(self@, now),
    {
        match self.copied_notice_until {
            Some(deadline) => now < deadline,
            None => false,
        }
    }

    /// The window title.
    pub fn window_title(&self) -> (t: String)
        ensures
            t@ == title_text(self@),
    {
        match &self.current_file {
            Some(p) => display_path(p),
            None => String::from_str("No file currently open"),
        }
    }

    /// The file to open at start-up: the one named on the command line, else
    /// the last one opened.
    pub fn startup_file(&self, from_args: Option<Vec<u8>>) -> (r: Option<Vec<u8>>)
        ensures
            opt_bytes(r) == match from_args {
                Some(p) => Some(p@),
                None => self@.settings.last_file,
            },
    {
        match from_args {
            Some(p) => Some(p),
            None => copy_opt_bytes(&self.settings.last_file),
        }
    }
}

} // verus!
