use vstd::prelude::*;

use crate::geometry::WindowHandle;

verus! {

/// The extended-style bit of a tool window, which task-switching UIs leave out.
pub const TOOL_WINDOW_STYLE: u32 = 0x80;

/// What a str's lowercase form is; `str::to_lowercase` decides it.
pub uninterp spec fn lower_of(s: Seq<char>) -> Seq<char>;

/// Relies on `str::to_lowercase`: the lowercase form depends on the characters alone.
#[verifier::external_body]
fn lowercase(s: &str) -> (r: String)
    ensures
        r@ == lower_of(s@),
{
    s.to_lowercase()
}

/// The observable attributes of one window, as the window system reports them.
pub struct WindowAttributes {
    pub visible: bool,
    pub minimized: bool,
    /// The owner window; null where the window has none.
    pub owner: WindowHandle,
    pub ex_style: u32,
    pub class_name: String,
    pub title: String,
    /// The executable name of the owning process, where it could be found.
    pub process_name: Option<String>,
}

/// One entry of a process listing.
pub struct ProcessEntry {
    pub pid: u32,
    pub exe_name: String,
}

/// Unicode White_Space, the property that `char::is_whitespace` and `str::trim` use.
pub open spec fn white_space_spec(c: char) -> bool {
    let u = c as u32;
    (0x09 <= u && u <= 0x0d) || u == 0x20 || u == 0x85 || u == 0xa0 || u == 0x1680 || (0x2000
        <= u && u <= 0x200a) || u == 0x2028 || u == 0x2029 || u == 0x202f || u == 0x205f || u
        == 0x3000
}

/// A text that is empty once trimmed.
pub open spec fn blank_spec(s: Seq<char>) -> bool {
    forall|i: int| 0 <= i < s.len() ==> white_space_spec(#[trigger] s[i])
}

/// Class names of shell surfaces: the desktop host, its background workers and
/// the modern-shell core window.
pub open spec fn denied_class_spec(c: Seq<char>) -> bool {
    c == "Progman"@ || c == "WorkerW"@ || c == "Windows.UI.Core.CoreWindow"@
}

/// Lowercased executable names of system helper processes.
pub open spec fn helper_process_spec(folded: Seq<char>) -> bool {
    folded == "textinputhost.exe"@ || folded == "applicationframehost.exe"@
}

pub open spec fn process_allowed_spec(name: Option<String>) -> bool {
    match name {
        Some(p) => !helper_process_spec(lower_of(p@)),
        None => true,
    }
}

/// A real user window: visible, not minimized, unowned, not a tool window, not
/// a shell surface, titled, and not owned by a helper process.
pub open spec fn eligible_spec(a: WindowAttributes) -> bool {
    &&& a.visible
    &&& !a.minimized
    &&& a.owner.is_null_spec()
    &&& a.ex_style & TOOL_WINDOW_STYLE == 0
    &&& !denied_class_spec(a.class_name@)
    &&& !blank_spec(a.title@)
    &&& process_allowed_spec(a.process_name)
}

pub fn is_white_space(c: char) -> (r: bool)
    ensures
        r == white_space_spec(c),
{
    let u = c as u32;
    (0x09 <= u && u <= 0x0d) || u == 0x20 || u == 0x85 || u == 0xa0 || u == 0x1680 || (0x2000
        <= u && u <= 0x200a) || u == 0x2028 || u == 0x2029 || u == 0x202f || u == 0x205f || u
        == 0x3000
}

/// Whether `s` is empty after trimming white space.
pub fn is_blank(s: &str) -> (r: bool)
    ensures
        r == blank_spec(s@),
{
    let n = s.unicode_len();
    let mut i: usize = 0;
    while i < n
        invariant
            n == s@.len(),
            i <= n,
            forall|k: int| 0 <= k < i ==> white_space_spec(#[trigger] s@[k]),
        decreases n - i,
    {
        if !is_white_space(s.get_char(i)) {
            return false;
        }
        i = i + 1;
    }
    true
}

/// Character-by-character equality of two texts.
pub fn same_text(a: &str, b: &str) -> (r: bool)
    ensures
        r == (a@ == b@),
{
    let n = a.unicode_len();
    if n != b.unicode_len() {
        return false;
    }
    let mut i: usize = 0;
    while i < n
        invariant
            n == a@.len(),
            n == b@.len(),
            i <= n,
            forall|k: int| 0 <= k < i ==> a@[k] == b@[k],
        decreases n - i,
    {
        if a.get_char(i) != b.get_char(i) {
            return false;
        }
        i = i + 1;
    }
    assert(a@ =~= b@);
    true
}

/// Whether a class name belongs to a shell surface.
pub fn is_denied_class(class_name: &str) -> (r: bool)
    ensures
        r == denied_class_spec(class_name@),
{
    same_text(class_name, "Progman") || same_text(class_name, "WorkerW") || same_text(
        class_name,
        "Windows.UI.Core.CoreWindow",
    )
}

/// Whether an already lowercased executable name belongs to a helper process.
pub fn is_helper_process(folded: &str) -> (r: bool)
    ensures
        r == helper_process_spec(folded@),
{
    same_text(folded, "textinputhost.exe") || same_text(folded, "applicationframehost.exe")
}

/// Whether the owning process leaves the window eligible: an unknown process
/// does, a helper process, compared without regard to case, does not.
pub fn is_process_allowed(name: &Option<String>) -> (r: bool)
    ensures
        r == process_allowed_spec(*name),
{
    match name {
        Some(p) => {
            let folded = lowercase(p.as_str());
            !is_helper_process(folded.as_str())
        },
        None => true,
    }
}

/// Whether a window is a real user window that focus may be switched to.
pub fn is_real_user_window(attrs: &WindowAttributes) -> (r: bool)
    ensures
        r == eligible_spec(*attrs),
{
    attrs.visible && !attrs.minimized && attrs.owner.is_null() && attrs.ex_style
        & TOOL_WINDOW_STYLE == 0 && !is_denied_class(attrs.class_name.as_str()) && !is_blank(
        attrs.title.as_str(),
    ) && is_process_allowed(&attrs.process_name)
}

/// The executable name of the first listed process with the given id, if any.
pub fn process_name_for(pid: u32, processes: &Vec<ProcessEntry>) -> (r: Option<String>)
    ensures
        match r {
            None => forall|i: int| 0 <= i < processes@.len() ==> (#[trigger] processes@[i]).pid != pid,
            Some(n) => exists|i: int|
                0 <= i < processes@.len() && (#[trigger] processes@[i]).pid == pid && n@
                    == processes@[i].exe_name@ && forall|j: int|
                    0 <= j < i ==> (#[trigger] processes@[j]).pid != pid,
        },
{
    let mut i: usize = 0;
    while i < processes.len()
        invariant
            i <= processes@.len(),
            forall|j: int| 0 <= j < i ==> (#[trigger] processes@[j]).pid != pid,
        decreases processes@.len() - i,
    {
        if processes[i].pid == pid {
            return Some(processes[i].exe_name.clone());
        }
        i = i + 1;
    }
    None
}

} // verus!

verus! {

/// A window that has an owner is never a real user window, whatever its
/// other attributes.
pub proof fn lemma_owned_window_excluded(a: WindowAttributes)
    requires
        !a.owner.is_null_spec(),
    ensures
        !eligible_spec(a),
{
}

/// A window of the desktop host's class is never a real user window, even
/// when it is visible, unowned and titled.
pub proof fn lemma_desktop_host_excluded(a: WindowAttributes)
    requires
        a.class_name@ == "Progman"@,
    ensures
        !eligible_spec(a),
{
}

} // verus!
