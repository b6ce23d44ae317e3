//! Theme and icon-theme names from configuration text: `key = value`
//! searches in ini-style files, the gtk-2 rc file's theme line, the icon
//! `index.theme` inheritance line, and the desktop-family decision that
//! picks which query tool applies.

use vstd::prelude::*;
use crate::text::{
    spec_find_char, spec_find_sub, spec_trim, spec_trim_quotes, spec_starts_with, spec_lowered,
    line_end_idx, find_char_from, find_sub_str, starts_with_str, trim_str, trim_quotes,
    contains_sub, contains_lowered, lemma_find_sub_props, eq_strs,
};
use crate::compose::lemma_find_char_props;

verus! {

/// What one trimmed ini line yields for a key: the text after the first
/// `=`, trimmed and unquoted, when the line starts with the key and the
/// value is nonempty.
pub open spec fn spec_line_value(line: Seq<char>, key: Seq<char>) -> Option<Seq<char>> {
    if spec_starts_with(line, key) {
        match spec_find_char(line, '=', 0) {
            Some(eq) => {
                let value = spec_trim_quotes(spec_trim(line.subrange(eq + 1, line.len() as int)));
                if value.len() > 0 {
                    Some(value)
                } else {
                    None
                }
            },
            None => None,
        }
    } else {
        None
    }
}

/// The value of the first line (trimmed) that starts with the key and
/// carries a nonempty `=` value, scanning from `from`.
pub open spec fn spec_search_key(content: Seq<char>, key: Seq<char>, from: int) -> Option<
    Seq<char>,
>
    decreases content.len() - from,
{
    if from >= content.len() {
        None
    } else {
        let e = line_end_idx(content, from);
        if from <= e < content.len() {
            let line = spec_trim(content.subrange(from, e));
            match spec_line_value(line, key) {
                Some(v) => Some(v),
                None => spec_search_key(content, key, e + 1),
            }
        } else {
            spec_line_value(spec_trim(content.subrange(from, content.len() as int)), key)
        }
    }
}

/// Searches ini-style content for a key, line by line: each line is
/// trimmed, must start with the key and hold a `=`; the value after the
/// first `=` is trimmed, unquoted, and returned when nonempty.
pub fn search_content_for_key(content: &str, key: &str) -> (r: Option<String>)
    ensures
        match r {
            Some(v) => spec_search_key(content@, key@, 0) == Some(v@),
            None => spec_search_key(content@, key@, 0) is None,
        },
{
    let n = content.unicode_len();
    let mut pos: usize = 0;
    while pos < n
        invariant
            pos <= n,
            n == content@.len(),
            spec_search_key(content@, key@, 0) == spec_search_key(content@, key@, pos as int),
        decreases n - pos,
    {
        proof {
            lemma_find_char_props(content@, '\n', pos as int);
        }
        let line_end: usize;
        let next: usize;
        match find_char_from(content, '\n', pos) {
            Some(e) => {
                line_end = e;
                next = e + 1;
            },
            None => {
                line_end = n;
                next = n;
            },
        }
        let line = trim_str(content.substring_char(pos, line_end));
        if starts_with_str(line, key) {
            match find_char_from(line, '=', 0) {
                Some(eq) => {
                    proof {
                        lemma_find_char_props(line@, '=', 0);
                    }
                    let ll = line.unicode_len();
                    let value = trim_quotes(trim_str(line.substring_char(eq + 1, ll)));
                    if value.unicode_len() > 0 {
                        return Some(String::from_str(value));
                    }
                },
                None => (),
            }
        }
        pos = next;
    }
    None
}

/// What one raw gtk-2 rc line yields: when it mentions the theme key, the
/// text between the first `=` and the second (or the line end), trimmed
/// and unquoted, when nonempty.
pub open spec fn spec_gtkrc_line(line: Seq<char>) -> Option<Seq<char>> {
    if spec_find_sub(line, "gtk-theme-name"@, 0) is Some {
        match spec_find_char(line, '=', 0) {
            None => None,
            Some(e1) => {
                let seg_end: int = match spec_find_char(line, '=', e1 + 1) {
                    Some(e2) => e2,
                    None => line.len() as int,
                };
                let v = spec_trim_quotes(spec_trim(line.subrange(e1 + 1, seg_end)));
                if v.len() > 0 {
                    Some(v)
                } else {
                    None
                }
            },
        }
    } else {
        None
    }
}

/// The theme name of the first usable gtk-2 rc line, scanning from `from`.
pub open spec fn spec_gtkrc_theme(content: Seq<char>, from: int) -> Option<Seq<char>>
    decreases content.len() - from,
{
    if from >= content.len() {
        None
    } else {
        let e = line_end_idx(content, from);
        if from <= e < content.len() {
            match spec_gtkrc_line(content.subrange(from, e)) {
                Some(v) => Some(v),
                None => spec_gtkrc_theme(content, e + 1),
            }
        } else {
            spec_gtkrc_line(content.subrange(from, content.len() as int))
        }
    }
}

/// Searches gtk-2 rc content for the theme name: the first line that
/// mentions `gtk-theme-name`, its value between the first two `=` signs
/// (or the line end), trimmed and unquoted, when nonempty.
pub fn gtkrc_theme_name(content: &str) -> (r: Option<String>)
    ensures
        match r {
            Some(v) => spec_gtkrc_theme(content@, 0) == Some(v@),
            None => spec_gtkrc_theme(content@, 0) is None,
        },
{
    let n = content.unicode_len();
    let mut pos: usize = 0;
    while pos < n
        invariant
            pos <= n,
            n == content@.len(),
            spec_gtkrc_theme(content@, 0) == spec_gtkrc_theme(content@, pos as int),
        decreases n - pos,
    {
        proof {
            lemma_find_char_props(content@, '\n', pos as int);
        }
        let line_end: usize;
        let next: usize;
        match find_char_from(content, '\n', pos) {
            Some(e) => {
                line_end = e;
                next = e + 1;
            },
            None => {
                line_end = n;
                next = n;
            },
        }
        let line = content.substring_char(pos, line_end);
        if contains_sub(line, "gtk-theme-name") {
            match find_char_from(line, '=', 0) {
                Some(e1) => {
                    proof {
                        lemma_find_char_props(line@, '=', 0);
                    }
                    let ll = line.unicode_len();
                    let seg_end: usize = match find_char_from(line, '=', e1 + 1) {
                        Some(e2) => {
                            proof {
                                lemma_find_char_props(line@, '=', e1 as int + 1);
                            }
                            e2
                        },
                        None => ll,
                    };
                    let v = trim_quotes(trim_str(line.substring_char(e1 + 1, seg_end)));
                    if v.unicode_len() > 0 {
                        return Some(String::from_str(v));
                    }
                },
                None => (),
            }
        }
        pos = next;
    }
    None
}

/// The text with every leading repeat of `p` removed.
pub open spec fn strip_prefix_all(s: Seq<char>, p: Seq<char>) -> Seq<char>
    decreases s.len(),
{
    if p.len() > 0 && spec_starts_with(s, p) {
        strip_prefix_all(s.subrange(p.len() as int, s.len() as int), p)
    } else {
        s
    }
}

/// What one raw `index.theme` line yields: when it starts with
/// `Inherits=`, the rest with every leading repeat of that prefix
/// removed and trimmed, when nonempty.
pub open spec fn spec_inherits_line(line: Seq<char>) -> Option<Seq<char>> {
    if spec_starts_with(line, "Inherits="@) {
        let v = spec_trim(strip_prefix_all(line, "Inherits="@));
        if v.len() > 0 {
            Some(v)
        } else {
            None
        }
    } else {
        None
    }
}

/// The inherited icon theme of the first usable `index.theme` line.
pub open spec fn spec_inherits(content: Seq<char>, from: int) -> Option<Seq<char>>
    decreases content.len() - from,
{
    if from >= content.len() {
        None
    } else {
        let e = line_end_idx(content, from);
        if from <= e < content.len() {
            match spec_inherits_line(content.subrange(from, e)) {
                Some(v) => Some(v),
                None => spec_inherits(content, e + 1),
            }
        } else {
            spec_inherits_line(content.subrange(from, content.len() as int))
        }
    }
}

/// Searches `index.theme` content for the inherited icon theme: the first
/// line that starts with `Inherits=`, its value trimmed, when nonempty.
pub fn index_theme_inherits(content: &str) -> (r: Option<String>)
    ensures
        match r {
            Some(v) => spec_inherits(content@, 0) == Some(v@),
            None => spec_inherits(content@, 0) is None,
        },
{
    let n = content.unicode_len();
    let mut pos: usize = 0;
    while pos < n
        invariant
            pos <= n,
            n == content@.len(),
            spec_inherits(content@, 0) == spec_inherits(content@, pos as int),
        decreases n - pos,
    {
        proof {
            lemma_find_char_props(content@, '\n', pos as int);
        }
        let line_end: usize;
        let next: usize;
        match find_char_from(content, '\n', pos) {
            Some(e) => {
                line_end = e;
                next = e + 1;
            },
            None => {
                line_end = n;
                next = n;
            },
        }
        let mut line = content.substring_char(pos, line_end);
        if starts_with_str(line, "Inherits=") {
            while starts_with_str(line, "Inherits=")
                invariant
                    strip_prefix_all(content@.subrange(pos as int, line_end as int), "Inherits="@)
                        == strip_prefix_all(line@, "Inherits="@),
                decreases line@.len(),
            {
                proof {
                    reveal_strlit("Inherits=");
                }
                let ll = line.unicode_len();
                line = line.substring_char(9, ll);
            }
            let v = trim_str(line);
            if v.unicode_len() > 0 {
                proof {
                    assert(spec_inherits_line(content@.subrange(pos as int, line_end as int))
                        == Some(v@));
                }
                return Some(String::from_str(v));
            }
        }
        pos = next;
    }
    None
}

/// The desktop families that pick a query tool.
#[derive(PartialEq, Eq, Structural, Clone, Copy, Debug)]
pub enum DesktopFamily {
    GnomeLike,
    Kde,
    Xfce,
    Other,
}

/// The family of a desktop name, decided on its lower-cased form: GNOME,
/// Budgie, Cinnamon and Unity share the GNOME tools; then KDE; then Xfce.
pub open spec fn spec_desktop_family(desktop: Seq<char>) -> DesktopFamily {
    let low = spec_lowered(desktop);
    if spec_find_sub(low, "gnome"@, 0) is Some || spec_find_sub(low, "budgie"@, 0) is Some
        || spec_find_sub(low, "cinnamon"@, 0) is Some || spec_find_sub(low, "unity"@, 0) is Some {
        DesktopFamily::GnomeLike
    } else if spec_find_sub(low, "kde"@, 0) is Some {
        DesktopFamily::Kde
    } else if spec_find_sub(low, "xfce"@, 0) is Some {
        DesktopFamily::Xfce
    } else {
        DesktopFamily::Other
    }
}

/// Classifies a desktop name into the family whose query tools apply.
pub fn desktop_family(desktop: &str) -> (r: DesktopFamily)
    ensures
        r == spec_desktop_family(desktop@),
{
    if contains_lowered(desktop, "gnome") || contains_lowered(desktop, "budgie")
        || contains_lowered(desktop, "cinnamon") || contains_lowered(desktop, "unity") {
        DesktopFamily::GnomeLike
    } else if contains_lowered(desktop, "kde") {
        DesktopFamily::Kde
    } else if contains_lowered(desktop, "xfce") {
        DesktopFamily::Xfce
    } else {
        DesktopFamily::Other
    }
}

} // verus!
