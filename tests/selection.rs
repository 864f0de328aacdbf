use window_switcher::classify::{
    is_blank, is_denied_class, is_helper_process, is_process_allowed, is_real_user_window,
    is_white_space, process_name_for, same_text, ProcessEntry, WindowAttributes,
    TOOL_WINDOW_STYLE,
};
use window_switcher::geometry::{admit_to_snapshot, Rect, WindowHandle, MIN_EXTENT};
use window_switcher::order::{sort_by_left, SnapshotEntry};
use window_switcher::select::{
    anchor_usable, build_snapshot, filter_eligible, neighbor, select_target, Candidate,
    Direction, RawWindow,
};

fn handle(v: isize) -> WindowHandle {
    WindowHandle { value: v }
}

fn rect_at(left: i32, width: i32, height: i32) -> Rect {
    Rect { left, top: 0, right: left + width, bottom: height }
}

fn attrs(title: &str) -> WindowAttributes {
    WindowAttributes {
        visible: true,
        minimized: false,
        owner: WindowHandle::null(),
        ex_style: 0,
        class_name: "Notepad".to_string(),
        title: title.to_string(),
        process_name: Some("notepad.exe".to_string()),
    }
}

fn candidate(h: isize, left: i32, title: &str) -> Candidate {
    Candidate {
        entry: SnapshotEntry { handle: handle(h), rect: rect_at(left, 400, 300) },
        attrs: attrs(title),
    }
}

fn entry(h: isize, left: i32) -> SnapshotEntry {
    SnapshotEntry { handle: handle(h), rect: rect_at(left, 400, 300) }
}

#[test]
fn three_windows_step_both_ways() {
    let cands = vec![candidate(1, 0, "A"), candidate(2, 100, "B"), candidate(3, 300, "C")];
    assert_eq!(select_target(&cands, handle(2), Direction::Previous), Some(handle(1)));
    assert_eq!(select_target(&cands, handle(2), Direction::Next), Some(handle(3)));
}

#[test]
fn three_windows_enumerated_out_of_order() {
    let cands = vec![candidate(3, 300, "C"), candidate(1, 0, "A"), candidate(2, 100, "B")];
    assert_eq!(select_target(&cands, handle(2), Direction::Previous), Some(handle(1)));
    assert_eq!(select_target(&cands, handle(2), Direction::Next), Some(handle(3)));
}

#[test]
fn single_window_has_no_target() {
    let cands = vec![candidate(7, 50, "Only")];
    assert_eq!(select_target(&cands, handle(7), Direction::Previous), None);
    assert_eq!(select_target(&cands, handle(7), Direction::Next), None);
}

#[test]
fn single_eligible_among_ineligible_has_no_target() {
    let mut hidden = candidate(8, 10, "Hidden");
    hidden.attrs.visible = false;
    let cands = vec![hidden, candidate(7, 50, "Only")];
    assert_eq!(select_target(&cands, handle(7), Direction::Previous), None);
    assert_eq!(select_target(&cands, handle(7), Direction::Next), None);
}

#[test]
fn minimized_focus_is_no_anchor() {
    assert!(!anchor_usable(handle(5), true, Some(rect_at(0, 400, 300))));
    assert!(!anchor_usable(WindowHandle::null(), false, Some(rect_at(0, 400, 300))));
    assert!(!anchor_usable(handle(5), false, None));
    assert!(anchor_usable(handle(5), false, Some(rect_at(0, 400, 300))));
}

#[test]
fn small_window_left_out_of_snapshot() {
    let raw = vec![
        RawWindow { handle: handle(1), visible: true, minimized: false, rect: Some(rect_at(0, 20, 20)) },
        RawWindow { handle: handle(2), visible: true, minimized: false, rect: Some(rect_at(100, 400, 300)) },
    ];
    let snap = build_snapshot(&raw);
    assert_eq!(snap, vec![entry(2, 100)]);
    assert!(!admit_to_snapshot(true, false, Some(rect_at(0, 20, 20))));
}

#[test]
fn snapshot_admission_rules() {
    let big = Some(rect_at(0, 400, 300));
    assert!(admit_to_snapshot(true, false, big));
    assert!(!admit_to_snapshot(false, false, big));
    assert!(!admit_to_snapshot(true, true, big));
    assert!(!admit_to_snapshot(true, false, None));
    assert!(admit_to_snapshot(true, false, Some(rect_at(0, MIN_EXTENT + 1, MIN_EXTENT + 1))));
    assert!(!admit_to_snapshot(true, false, Some(rect_at(0, MIN_EXTENT, MIN_EXTENT + 1))));
    assert!(!admit_to_snapshot(true, false, Some(rect_at(0, MIN_EXTENT + 1, MIN_EXTENT))));
}

#[test]
fn size_check_on_extreme_coordinates() {
    let wide = Rect { left: i32::MIN, top: i32::MIN, right: i32::MAX, bottom: i32::MAX };
    assert!(wide.large_enough());
    let inverted = Rect { left: i32::MAX, top: i32::MAX, right: i32::MIN, bottom: i32::MIN };
    assert!(!inverted.large_enough());
}

#[test]
fn no_wraparound_at_either_end() {
    let cands = vec![candidate(1, 0, "A"), candidate(2, 100, "B"), candidate(3, 300, "C")];
    assert_eq!(select_target(&cands, handle(1), Direction::Previous), None);
    assert_eq!(select_target(&cands, handle(3), Direction::Next), None);
    assert_eq!(select_target(&cands, handle(1), Direction::Next), Some(handle(2)));
    assert_eq!(select_target(&cands, handle(3), Direction::Previous), Some(handle(2)));
}

#[test]
fn untitled_focus_gives_no_target() {
    let cands = vec![candidate(1, 0, "A"), candidate(2, 100, "   "), candidate(3, 300, "C")];
    assert_eq!(select_target(&cands, handle(2), Direction::Previous), None);
    assert_eq!(select_target(&cands, handle(2), Direction::Next), None);
}

#[test]
fn unknown_focus_gives_no_target() {
    let cands = vec![candidate(1, 0, "A"), candidate(3, 300, "C")];
    assert_eq!(select_target(&cands, handle(99), Direction::Previous), None);
    assert_eq!(select_target(&cands, handle(99), Direction::Next), None);
}

#[test]
fn ineligible_windows_are_skipped_when_stepping() {
    let mut tool = candidate(2, 100, "Palette");
    tool.attrs.ex_style = TOOL_WINDOW_STYLE;
    let cands = vec![candidate(1, 0, "A"), tool, candidate(3, 300, "C")];
    assert_eq!(select_target(&cands, handle(1), Direction::Next), Some(handle(3)));
    assert_eq!(filter_eligible(&cands), vec![entry(1, 0), entry(3, 300)]);
}

#[test]
fn owned_window_is_excluded() {
    let mut a = attrs("Dialog");
    a.owner = handle(42);
    assert!(!is_real_user_window(&a));
}

#[test]
fn desktop_host_class_is_excluded() {
    let mut a = attrs("Program Manager");
    a.class_name = "Progman".to_string();
    assert!(!is_real_user_window(&a));
    assert!(is_denied_class("WorkerW"));
    assert!(is_denied_class("Windows.UI.Core.CoreWindow"));
    assert!(!is_denied_class("progman"));
    assert!(!is_denied_class("Progman2"));
}

#[test]
fn plain_window_is_eligible() {
    assert!(is_real_user_window(&attrs("Untitled - Notepad")));
}

#[test]
fn classification_is_repeatable() {
    let a = attrs("Editor");
    let first = is_real_user_window(&a);
    let second = is_real_user_window(&a);
    assert_eq!(first, second);
    let mut b = attrs("Editor");
    b.minimized = true;
    assert_eq!(is_real_user_window(&b), is_real_user_window(&b));
    assert!(!is_real_user_window(&b));
}

#[test]
fn each_attribute_can_exclude() {
    let mut a = attrs("T");
    a.visible = false;
    assert!(!is_real_user_window(&a));
    let mut a = attrs("T");
    a.minimized = true;
    assert!(!is_real_user_window(&a));
    let mut a = attrs("T");
    a.ex_style = TOOL_WINDOW_STYLE | 0x100;
    assert!(!is_real_user_window(&a));
    let mut a = attrs("T");
    a.ex_style = 0x100;
    assert!(is_real_user_window(&a));
    assert!(!is_real_user_window(&attrs("")));
    assert!(!is_real_user_window(&attrs(" \t\u{3000}\n")));
}

#[test]
fn helper_processes_excluded_in_any_case() {
    let mut a = attrs("Input");
    a.process_name = Some("TextInputHost.EXE".to_string());
    assert!(!is_real_user_window(&a));
    a.process_name = Some("ApplicationFrameHost.exe".to_string());
    assert!(!is_real_user_window(&a));
    a.process_name = None;
    assert!(is_real_user_window(&a));
    assert!(!is_process_allowed(&Some("TEXTINPUTHOST.EXE".to_string())));
    assert!(is_process_allowed(&Some("explorer.exe".to_string())));
    assert!(is_helper_process("textinputhost.exe"));
    assert!(!is_helper_process("TextInputHost.exe"));
}

#[test]
fn blank_titles() {
    assert!(is_blank(""));
    assert!(is_blank(" \u{a0}\u{2028}"));
    assert!(!is_blank("  x "));
}

#[test]
fn white_space_matches_std() {
    for u in 0u32..0x11_0000 {
        if let Some(c) = char::from_u32(u) {
            assert_eq!(is_white_space(c), c.is_whitespace(), "U+{:04X}", u);
        }
    }
}

#[test]
fn text_comparison() {
    assert!(same_text("abc", "abc"));
    assert!(!same_text("abc", "abd"));
    assert!(!same_text("abc", "ab"));
    assert!(same_text("", ""));
}

#[test]
fn sorting_is_independent_of_listing_order() {
    let a = vec![entry(1, 300), entry(2, 0), entry(3, 100)];
    let b = vec![entry(3, 100), entry(1, 300), entry(2, 0)];
    let sa = sort_by_left(&a);
    assert_eq!(sa, vec![entry(2, 0), entry(3, 100), entry(1, 300)]);
    assert_eq!(sa, sort_by_left(&b));
    assert_eq!(sort_by_left(&sa), sa);
}

#[test]
fn equal_lefts_keep_listing_order() {
    let a = vec![entry(5, 10), entry(6, 0), entry(7, 10), entry(8, 0)];
    assert_eq!(sort_by_left(&a), vec![entry(6, 0), entry(8, 0), entry(5, 10), entry(7, 10)]);
    assert_eq!(sort_by_left(&Vec::new()), Vec::<SnapshotEntry>::new());
}

#[test]
fn neighbor_uses_first_occurrence() {
    let s = vec![entry(1, 0), entry(2, 10), entry(1, 20)];
    assert_eq!(neighbor(&s, handle(1), Direction::Next), Some(handle(2)));
    assert_eq!(neighbor(&s, handle(1), Direction::Previous), None);
}

#[test]
fn process_lookup() {
    let list = vec![
        ProcessEntry { pid: 4, exe_name: "System".to_string() },
        ProcessEntry { pid: 900, exe_name: "first.exe".to_string() },
        ProcessEntry { pid: 900, exe_name: "second.exe".to_string() },
    ];
    assert_eq!(process_name_for(900, &list), Some("first.exe".to_string()));
    assert_eq!(process_name_for(4, &list), Some("System".to_string()));
    assert_eq!(process_name_for(5, &list), None);
    assert_eq!(process_name_for(5, &Vec::new()), None);
}
