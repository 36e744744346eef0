//! The menu bar: which entries it holds, with what labels, shortcuts and
//! check marks, and what each one does. Labels use the menu toolkit's
//! conventions: `/` separates submenus, `&` marks the access key and a tab
//! ends the label.
use vstd::prelude::*;
use vstd::string::StringExecFns;
use crate::paths::{file_and_folder_names, file_name, folder_name, utf8_text};
use vstd::utf8::{decode_utf8, valid_utf8};
use crate::state::AppState;
use crate::state::AppStateView;
use crate::text::{chars_of, extend_range, string_from_chars};

verus! {

/// What choosing a menu entry does.
#[derive(Clone, Copy, Debug, PartialEq, Eq, Structural)]
pub enum MenuCommand {
    Open,
    /// Open the entry of the file history at this index.
    OpenRecent(usize),
    /// Nothing (an entry that cannot be chosen).
    Nothing,
    Reload,
    Quit,
    ToggleAlwaysVisible,
    ToggleAutoShow,
    OpenSettings,
    Show,
    Hide,
}

/// How an entry looks.
#[derive(Clone, Copy, Debug, PartialEq, Eq, Structural)]
pub enum MenuItemKind {
    Normal,
    /// Shown greyed out.
    Inactive,
    /// An entry with a check mark, set or not.
    Toggle { checked: bool },
}

/// One entry of the menu bar.
pub struct MenuEntry {
    pub label: String,
    /// The key that, with Ctrl, chooses the entry.
    pub ctrl_key: Option<char>,
    pub kind: MenuItemKind,
    pub command: MenuCommand,
}

pub struct MenuEntryView {
    pub label: Seq<char>,
    pub ctrl_key: Option<char>,
    pub kind: MenuItemKind,
    pub command: MenuCommand,
}

impl View for MenuEntry {
    type V = MenuEntryView;

    open spec fn view(&self) -> MenuEntryView {
        MenuEntryView {
            label: self.label@,
            ctrl_key: self.ctrl_key,
            kind: self.kind,
            command: self.command,
        }
    }
}

pub open spec fn entry_views(v: Seq<MenuEntry>) -> Seq<MenuEntryView> {
    v.map_values(|e: MenuEntry| e@)
}

pub open spec fn entry(
    label: Seq<char>,
    ctrl_key: Option<char>,
    kind: MenuItemKind,
    command: MenuCommand,
) -> MenuEntryView {
    MenuEntryView { label, ctrl_key, kind, command }
}

/// The digit for `d` (below ten).
pub open spec fn decimal_digit(d: nat) -> char {
    ((48 + d) as u8) as char
}

/// The decimal numeral of `n`.
pub open spec fn decimal(n: nat) -> Seq<char>
    decreases n,
{
    if n < 10 {
        seq![decimal_digit(n)]
    } else {
        decimal(n / 10).push(decimal_digit(n % 10))
    }
}

/// What one character of a label becomes in the menu: `&` is doubled so that
/// it shows, `/` gets spaces so that it opens no submenu, `\` becomes a space.
pub open spec fn sanitized_char(c: char) -> Seq<char> {
    if c == '&' {
        seq!['&', '&']
    } else if c == '/' {
        seq![' ', '/', ' ']
    } else if c == '\\' {
        seq![' ']
    } else {
        seq![c]
    }
}

/// A label with every character made safe for the menu.
pub open spec fn sanitized(s: Seq<char>) -> Seq<char>
    decreases s.len(),
{
    if s.len() == 0 {
        Seq::empty()
    } else {
        sanitized(s.drop_last()) + sanitized_char(s.last())
    }
}

/// The label of the file history entry at `index`: its number (from 1), the
/// file name (`Untitled` when the path ends in no name or the name is not
/// UTF-8) and, in parentheses, the name of the folder that holds it, when
/// there is one and it is UTF-8.
pub open spec fn recent_label(index: nat, path: Seq<u8>) -> Seq<char> {
    let name = match utf8_name(file_name(path)) {
        Some(n) => n,
        None => "Untitled"@,
    };
    let folder = match utf8_name(folder_name(path)) {
        Some(f) => " ("@ + f + ")"@,
        None => Seq::empty(),
    };
    sanitized(decimal(index + 1) + ". "@ + name + folder)
}

/// A name read as UTF-8 text, when it is valid UTF-8 (what `OsStr::to_str` gives).
pub open spec fn utf8_name(name: Option<Seq<u8>>) -> Option<Seq<char>> {
    match name {
        Some(b) => if valid_utf8(b) {
            Some(decode_utf8(b))
        } else {
            None
        },
        None => None,
    }
}

/// The entries of the "Open Recent" submenu.
pub open spec fn recent_entries(list: Seq<Seq<u8>>) -> Seq<MenuEntryView> {
    if list.len() == 0 {
        seq![
            entry(
                "&File/Open Recent/(Empty)"@,
                None,
                MenuItemKind::Inactive,
                MenuCommand::Nothing,
            ),
        ]
    } else {
        Seq::new(
            list.len(),
            |i: int|
                entry(
                    "&File/Open Recent/"@ + recent_label(i as nat, list[i]),
                    None,
                    MenuItemKind::Normal,
                    MenuCommand::OpenRecent(i as usize),
                ),
        )
    }
}

/// The whole menu bar for a state.
pub open spec fn menu_spec(s: AppStateView) -> Seq<MenuEntryView> {
    seq![entry("&File/Open...\t"@, Some('o'), MenuItemKind::Normal, MenuCommand::Open)]
        + recent_entries(s.settings.recent_files) + seq![
        entry("&File/Reload\t"@, Some('r'), MenuItemKind::Normal, MenuCommand::Reload),
        entry("&File/Quit\t"@, Some('q'), MenuItemKind::Normal, MenuCommand::Quit),
        entry(
            "&Options/Always Visible\t"@,
            None,
            MenuItemKind::Toggle { checked: s.always_visible },
            MenuCommand::ToggleAlwaysVisible,
        ),
        entry(
            "&Options/Auto Show\t"@,
            None,
            MenuItemKind::Toggle { checked: s.auto_show },
            MenuCommand::ToggleAutoShow,
        ),
        entry("&Options/Settings...\t"@, None, MenuItemKind::Normal, MenuCommand::OpenSettings),
        entry("&View/Show\t"@, None, MenuItemKind::Normal, MenuCommand::Show),
        entry("&View/Hide\t"@, None, MenuItemKind::Normal, MenuCommand::Hide),
    ]
}

fn decimal_chars(n: usize) -> (out: Vec<char>)
    ensures
        out@ == decimal(n as nat),
    decreases n,
{
    let d = (n % 10) as u8;
    let c = (48 + d) as char;
    if n < 10 {
        let mut out: Vec<char> = Vec::new();
        out.push(c);
        proof {
            assert(out@ =~= seq![decimal_digit(n as nat)]);
        }
        out
    } else {
        let mut out = decimal_chars(n / 10);
        out.push(c);
        out
    }
}

fn push_str_chars(out: &mut Vec<char>, s: &str)
    ensures
        final(out)@ == old(out)@ + s@,
{
    let v = chars_of(s);
    extend_range(out, &v, 0, v.len());
    proof {
        assert(v@.subrange(0, v@.len() as int) =~= v@);
    }
}

fn sanitized_chars(s: &Vec<char>) -> (out: Vec<char>)
    ensures
        out@ == sanitized(s@),
{
    let mut out: Vec<char> = Vec::new();
    let mut i: usize = 0;
    proof {
        assert(s@.take(0) =~= Seq::<char>::empty());
    }
    while i < s.len()
        invariant
            i <= s.len(),
            out@ == sanitized(s@.take(i as int)),
        decreases s.len() - i,
    {
        let c = s[i];
        let ghost before = out@;
        if c == '&' {
            out.push('&');
            out.push('&');
        } else if c == '/' {
            out.push(' ');
            out.push('/');
            out.push(' ');
        } else if c == '\\' {
            out.push(' ');
        } else {
            out.push(c);
        }
        proof {
            assert(s@.take(i + 1).drop_last() =~= s@.take(i as int));
            assert(out@ =~= before + sanitized_char(c));
        }
        i = i + 1;
    }
    proof {
        assert(s@.take(s.len() as int) =~= s@);
    }
    out
}

/// Makes a label safe for the menu: `&` is doubled, `/` gets a space on each
/// side, `\` becomes a space.
pub fn sanitize_menu_label(label: &str) -> (out: String)
    ensures
        out@ == sanitized(label@),
{
    let v = chars_of(label);
    string_from_chars(&sanitized_chars(&v))
}

/// The label of the file history entry at `index` for `path`.
pub fn format_recent_menu_label(index: usize, path: &Vec<u8>) -> (label: String)
    requires
        index < usize::MAX,
    ensures
        label@ == recent_label(index as nat, path@),
{
    let (file, folder) = file_and_folder_names(path);
    let file_text = match file {
        Some(f) => utf8_text(&f),
        None => None,
    };
    let folder_text = match folder {
        Some(f) => utf8_text(&f),
        None => None,
    };
    let mut text = decimal_chars(index + 1);
    push_str_chars(&mut text, ". ");
    match file_text {
        Some(f) => {
            push_str_chars(&mut text, f.as_str());
        },
        None => {
            push_str_chars(&mut text, "Untitled");
        },
    }
    match folder_text {
        Some(f) => {
            push_str_chars(&mut text, " (");
            push_str_chars(&mut text, f.as_str());
            push_str_chars(&mut text, ")");
        },
        None => {},
    }
    proof {
        let name = match utf8_name(file_name(path@)) {
            Some(n) => n,
            None => "Untitled"@,
        };
        let fold = match utf8_name(folder_name(path@)) {
            Some(f) => " ("@ + f + ")"@,
            None => Seq::<char>::empty(),
        };
        assert(text@ =~= decimal((index + 1) as nat) + ". "@ + name + fold);
    }
    let safe = sanitized_chars(&text);
    string_from_chars(&safe)
}

fn make_entry(label: &str, ctrl_key: Option<char>, kind: MenuItemKind, command: MenuCommand) -> (e:
    MenuEntry)
    ensures
        e@ == entry(label@, ctrl_key, kind, command),
{
    MenuEntry { label: String::from_str(label), ctrl_key, kind, command }
}

impl AppState {
    /// The entries of the menu bar, in order.
    pub fn menu_entries(&self) -> (entries: Vec<MenuEntry>)
        ensures
            entry_views(entries@) == menu_spec(self@),
    {
        let mut entries: Vec<MenuEntry> = Vec::new();
        entries.push(make_entry("&File/Open...\t", Some('o'), MenuItemKind::Normal, MenuCommand::Open));
        let ghost first = entry_views(entries@);
        let recent = &self.settings.recent_files;
        let ghost list = self@.settings.recent_files;
        if recent.len() == 0 {
            entries.push(
                make_entry(
                    "&File/Open Recent/(Empty)",
                    None,
                    MenuItemKind::Inactive,
                    MenuCommand::Nothing,
                ),
            );
            proof {
                assert(entry_views(entries@) =~= first + recent_entries(list));
            }
        } else {
            let mut i: usize = 0;
            while i < recent.len()
                invariant
                    i <= recent.len(),
                    list == crate::state::byte_views(recent@),
                    list.len() == recent.len(),
                    entry_views(entries@) == first + recent_entries(list).take(i as int),
                decreases recent.len() - i,
            {
                let label = format_recent_menu_label(i, &recent[i]);
                let full = String::from_str("&File/Open Recent/").concat(label.as_str());
                let ghost before = entry_views(entries@);
                entries.push(
                    MenuEntry {
                        label: full,
                        ctrl_key: None,
                        kind: MenuItemKind::Normal,
                        command: MenuCommand::OpenRecent(i),
                    },
                );
                proof {
                    assert(entry_views(entries@) =~= before.push(entry_views(entries@).last()));
                    assert(recent_entries(list).take(i + 1) =~= recent_entries(list).take(
                        i as int,
                    ).push(recent_entries(list)[i as int]));
                    assert(entry_views(entries@) =~= first + recent_entries(list).take(i + 1));
                }
                i = i + 1;
            }
            proof {
                assert(recent_entries(list).take(recent.len() as int) =~= recent_entries(list));
            }
        }
        let ghost middle = entry_views(entries@);
        proof {
            assert(first =~= seq![
                entry("&File/Open...\t"@, Some('o'), MenuItemKind::Normal, MenuCommand::Open),
            ]);
            assert(middle == first + recent_entries(list));
        }
        entries.push(make_entry("&File/Reload\t", Some('r'), MenuItemKind::Normal, MenuCommand::Reload));
        entries.push(make_entry("&File/Quit\t", Some('q'), MenuItemKind::Normal, MenuCommand::Quit));
        entries.push(
            make_entry(
                "&Options/Always Visible\t",
                None,
                MenuItemKind::Toggle { checked: self.always_visible },
                MenuCommand::ToggleAlwaysVisible,
            ),
        );
        entries.push(
            make_entry(
                "&Options/Auto Show\t",
                None,
                MenuItemKind::Toggle { checked: self.auto_show },
                MenuCommand::ToggleAutoShow,
            ),
        );
        entries.push(
            make_entry(
                "&Options/Settings...\t",
                None,
                MenuItemKind::Normal,
                MenuCommand::OpenSettings,
            ),
        );
        entries.push(make_entry("&View/Show\t", None, MenuItemKind::Normal, MenuCommand::Show));
        entries.push(make_entry("&View/Hide\t", None, MenuItemKind::Normal, MenuCommand::Hide));
        proof {
            let s = self@;
            let tail = seq![
                entry("&File/Reload\t"@, Some('r'), MenuItemKind::Normal, MenuCommand::Reload),
                entry("&File/Quit\t"@, Some('q'), MenuItemKind::Normal, MenuCommand::Quit),
                entry(
                    "&Options/Always Visible\t"@,
                    None,
                    MenuItemKind::Toggle { checked: s.always_visible },
                    MenuCommand::ToggleAlwaysVisible,
                ),
                entry(
                    "&Options/Auto Show\t"@,
                    None,
                    MenuItemKind::Toggle { checked: s.auto_show },
                    MenuCommand::ToggleAutoShow,
                ),
                entry("&Options/Settings...\t"@, None, MenuItemKind::Normal, MenuCommand::OpenSettings),
                entry("&View/Show\t"@, None, MenuItemKind::Normal, MenuCommand::Show),
                entry("&View/Hide\t"@, None, MenuItemKind::Normal, MenuCommand::Hide),
            ];
            assert(entry_views(entries@) =~= middle + tail);
            assert(menu_spec(s) =~= first + recent_entries(list) + tail);
        }
        entries
    }
}

} // verus!
