//! Reading the focused application out of the window-property tool's output,
//! and the list of desktop-shell surfaces that are never logged.
use vstd::prelude::*;
use vstd::utf8::{decode_utf8, valid_utf8};
use crate::frame::same_text;

verus! {

/// Why the output of the window-property tool could not be read.
#[derive(Debug, PartialEq, Eq, Structural)]
pub enum XpropParseError {
    WinId,
    Class,
    DesktopPath,
}

pub const SPACE: u8 = 32;
pub const EQUALS: u8 = 61;
pub const COMMA: u8 = 44;

/// The first index at or after `i` that holds `c`.
pub open spec fn find_from(b: Seq<u8>, c: u8, i: int) -> Option<int>
    decreases b.len() - i,
{
    if i < 0 || i >= b.len() {
        None
    } else if b[i] == c {
        Some(i)
    } else {
        find_from(b, c, i + 1)
    }
}

/// The last index before `i` that holds `c`.
pub open spec fn find_last_before(b: Seq<u8>, c: u8, i: int) -> Option<int>
    decreases i,
{
    if i <= 0 || i > b.len() {
        None
    } else if b[i - 1] == c {
        Some(i - 1)
    } else {
        find_last_before(b, c, i - 1)
    }
}

/// The text of `b[from..to]` if it is valid UTF-8.
pub open spec fn text_of(b: Seq<u8>, from: int, to: int) -> Option<Seq<char>> {
    if 0 <= from <= to <= b.len() && valid_utf8(b.subrange(from, to)) {
        Some(decode_utf8(b.subrange(from, to)))
    } else {
        None
    }
}

/// The last space-separated word of the active-window query.
pub open spec fn win_id_of(out: Seq<u8>) -> Option<Seq<char>> {
    if !valid_utf8(out) {
        None
    } else {
        match find_last_before(out, SPACE, out.len() as int) {
            Some(k) => text_of(out, k + 1, out.len() as int),
            None => text_of(out, 0, out.len() as int),
        }
    }
}

/// The first quoted value of a `WM_CLASS(STRING) = "id", "Id"` line.
pub open spec fn app_name_of(out: Seq<u8>) -> Option<Seq<char>> {
    if !valid_utf8(out) {
        None
    } else {
        match (find_from(out, EQUALS, 0), find_from(out, COMMA, 0)) {
            (Some(i), Some(j)) => text_of(out, i + 3, j - 1),
            _ => None,
        }
    }
}

/// The quoted path of a `_BAMF_DESKTOP_FILE(STRING) = "path"` line that
/// ends in a newline.
pub open spec fn desktop_path_of(out: Seq<u8>) -> Option<Seq<char>> {
    if !valid_utf8(out) {
        None
    } else {
        match find_from(out, EQUALS, 0) {
            Some(i) => text_of(out, i + 3, out.len() - 2),
            None => None,
        }
    }
}

/// Application identifiers that are never logged: a single character, or a
/// desktop-shell surface.
pub open spec fn is_ignored_app(name: Seq<char>) -> bool {
    name.len() == 1 || name == "Desktop"@ || name == "unity-panel"@ || name == "wingpanel"@
}

/// Relies on `String::from_utf8`: it succeeds exactly on valid UTF-8 and then
/// holds the decoded text.
#[verifier::external_body]
pub(crate) fn utf8_string(bytes: Vec<u8>) -> (r: Option<String>)
    ensures
        r is Some <==> valid_utf8(bytes@),
        r matches Some(s) ==> s@ == decode_utf8(bytes@),
{
    String::from_utf8(bytes).ok()
}

/// The first index at or after `from` that holds `c`.
fn find_byte(b: &Vec<u8>, c: u8, from: usize) -> (r: Option<usize>)
    ensures
        r matches Some(i) ==> find_from(b@, c, from as int) == Some(i as int) && i < b@.len(),
        r is None ==> find_from(b@, c, from as int) is None,
{
    let mut i = from;
    while i < b.len()
        invariant
            from <= i,
            find_from(b@, c, from as int) == find_from(b@, c, i as int),
        decreases b@.len() - i,
    {
        if b[i] == c {
            return Some(i);
        }
        i = i + 1;
    }
    None
}

/// The last index before `b.len()` that holds `c`.
fn find_last_byte(b: &Vec<u8>, c: u8) -> (r: Option<usize>)
    ensures
        r matches Some(i) ==> find_last_before(b@, c, b@.len() as int) == Some(i as int) && i < b@.len(),
        r is None ==> find_last_before(b@, c, b@.len() as int) is None,
{
    let mut i = b.len();
    while i > 0
        invariant
            i <= b@.len(),
            find_last_before(b@, c, b@.len() as int) == find_last_before(b@, c, i as int),
        decreases i,
    {
        if b[i - 1] == c {
            return Some(i - 1);
        }
        i = i - 1;
    }
    None
}

/// The text of `b[from..to]`, if the range lies in `b` and holds valid UTF-8.
fn text_span(b: &Vec<u8>, from: usize, to: usize) -> (r: Option<String>)
    ensures
        r matches Some(s) ==> text_of(b@, from as int, to as int) == Some(s@),
        r is None ==> text_of(b@, from as int, to as int) is None,
{
    if from > to || to > b.len() {
        return None;
    }
    let part = vstd::slice::slice_to_vec(vstd::slice::slice_subrange(b.as_slice(), from, to));
    utf8_string(part)
}

/// Whether the whole output is valid UTF-8.
fn is_utf8(b: &Vec<u8>) -> (r: bool)
    ensures
        r == valid_utf8(b@),
{
    let r = utf8_string(b.clone());
    r.is_some()
}

/// Reads the focused window's identifier out of the output of the
/// active-window query: its last space-separated word.
pub fn parse_active_win_id(out: &Vec<u8>) -> (r: Result<String, XpropParseError>)
    ensures
        r matches Ok(s) ==> win_id_of(out@) == Some(s@),
        r matches Err(e) ==> win_id_of(out@) is None && e == XpropParseError::WinId,
{
    if !is_utf8(out) {
        return Err(XpropParseError::WinId);
    }
    let len = out.len();
    let start = match find_last_byte(out, SPACE) {
        Some(k) => k + 1,
        None => 0,
    };
    match text_span(out, start, len) {
        Some(s) => Ok(s),
        None => Err(XpropParseError::WinId),
    }
}

/// Reads the application identifier out of the window's `WM_CLASS`
/// property: the first quoted value.
pub fn parse_app_name(out: &Vec<u8>) -> (r: Result<String, XpropParseError>)
    ensures
        r matches Ok(s) ==> app_name_of(out@) == Some(s@),
        r matches Err(e) ==> app_name_of(out@) is None && e == XpropParseError::Class,
{
    if !is_utf8(out) {
        return Err(XpropParseError::Class);
    }
    let i = match find_byte(out, EQUALS, 0) {
        Some(i) => i,
        None => return Err(XpropParseError::Class),
    };
    let j = match find_byte(out, COMMA, 0) {
        Some(j) => j,
        None => return Err(XpropParseError::Class),
    };
    if j < 1 || out.len() - i < 3 {
        return Err(XpropParseError::Class);
    }
    match text_span(out, i + 3, j - 1) {
        Some(s) => Ok(s),
        None => Err(XpropParseError::Class),
    }
}

/// Reads the launcher path out of the window's desktop-file property.
pub fn parse_desktop_file_path(out: &Vec<u8>) -> (r: Result<String, XpropParseError>)
    ensures
        r matches Ok(s) ==> desktop_path_of(out@) == Some(s@),
        r matches Err(e) ==> desktop_path_of(out@) is None && e == XpropParseError::DesktopPath,
{
    if !is_utf8(out) {
        return Err(XpropParseError::DesktopPath);
    }
    let i = match find_byte(out, EQUALS, 0) {
        Some(i) => i,
        None => return Err(XpropParseError::DesktopPath),
    };
    if out.len() < 2 || out.len() - i < 3 {
        return Err(XpropParseError::DesktopPath);
    }
    match text_span(out, i + 3, out.len() - 2) {
        Some(s) => Ok(s),
        None => Err(XpropParseError::DesktopPath),
    }
}

/// Whether samples of `app_name` are skipped instead of logged.
pub fn should_ignore_app(app_name: &str) -> (r: bool)
    ensures
        r == is_ignored_app(app_name@),
{
    if app_name.unicode_len() == 1 {
        return true;
    }
    same_text(app_name, "Desktop") || same_text(app_name, "unity-panel") || same_text(app_name, "wingpanel")
}

} // verus!
