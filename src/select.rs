use vstd::prelude::*;

use crate::classify::{eligible_spec, is_real_user_window, WindowAttributes};
use crate::geometry::{admit_to_snapshot, admitted_spec, Rect, WindowHandle};
use crate::order::{sort_by_left, sorted_by_left, SnapshotEntry};

verus! {

broadcast use vstd::seq_lib::group_to_multiset_ensures;

/// A step toward a lower left coordinate, or toward a higher one.
#[derive(Clone, Copy, Debug, PartialEq, Eq, Structural)]
pub enum Direction {
    Previous,
    Next,
}

/// A top-level window as enumeration first sees it.
#[derive(Clone, Copy, Debug, PartialEq, Eq, Structural)]
pub struct RawWindow {
    pub handle: WindowHandle,
    pub visible: bool,
    pub minimized: bool,
    /// The bounding box; `None` where it could not be measured.
    pub rect: Option<Rect>,
}

/// A snapshot entry together with the attributes the classifier reads.
pub struct Candidate {
    pub entry: SnapshotEntry,
    pub attrs: WindowAttributes,
}

/// The windows that enumeration admits, with their rectangles, in enumeration order.
pub open spec fn snapshot_of(raw: Seq<RawWindow>) -> Seq<SnapshotEntry>
    decreases raw.len(),
{
    if raw.len() == 0 {
        Seq::empty()
    } else {
        let rest = snapshot_of(raw.drop_last());
        let w = raw.last();
        if admitted_spec(w.visible, w.minimized, w.rect) {
            rest.push(SnapshotEntry { handle: w.handle, rect: w.rect.unwrap() })
        } else {
            rest
        }
    }
}

/// The entries of the candidates that the classifier accepts, in their order.
pub open spec fn eligible_entries(c: Seq<Candidate>) -> Seq<SnapshotEntry>
    decreases c.len(),
{
    if c.len() == 0 {
        Seq::empty()
    } else {
        let rest = eligible_entries(c.drop_last());
        if eligible_spec(c.last().attrs) {
            rest.push(c.last().entry)
        } else {
            rest
        }
    }
}

/// `i` is the first position of `h` in `s`.
pub open spec fn is_first_index(s: Seq<SnapshotEntry>, h: WindowHandle, i: int) -> bool {
    &&& 0 <= i < s.len()
    &&& s[i].handle == h
    &&& forall|k: int| 0 <= k < i ==> (#[trigger] s[k]).handle != h
}

/// The neighbour of position `i` in direction `d`; none past either end.
pub open spec fn step_from(s: Seq<SnapshotEntry>, i: int, d: Direction) -> Option<WindowHandle> {
    match d {
        Direction::Previous => if i > 0 {
            Some(s[i - 1].handle)
        } else {
            None
        },
        Direction::Next => if i + 1 < s.len() {
            Some(s[i + 1].handle)
        } else {
            None
        },
    }
}

/// The window one step from `h` in direction `d` along `s`; none where `h`
/// is not in `s`.
pub open spec fn neighbor_spec(s: Seq<SnapshotEntry>, h: WindowHandle, d: Direction) -> Option<
    WindowHandle,
> {
    if exists|i: int| is_first_index(s, h, i) {
        step_from(s, choose|i: int| is_first_index(s, h, i), d)
    } else {
        None
    }
}

/// The focus target for a step from `current` in direction `d` among `candidates`.
pub open spec fn target_spec(candidates: Seq<Candidate>, current: WindowHandle, d: Direction) -> Option<
    WindowHandle,
> {
    neighbor_spec(sorted_by_left(eligible_entries(candidates)), current, d)
}

/// A focused window is a valid anchor when there is one, it is not minimized,
/// and its rectangle could be measured.
pub open spec fn anchor_usable_spec(
    foreground: WindowHandle,
    minimized: bool,
    rect: Option<Rect>,
) -> bool {
    !foreground.is_null_spec() && !minimized && rect.is_some()
}

proof fn lemma_first_index_unique(s: Seq<SnapshotEntry>, h: WindowHandle, i: int, j: int)
    requires
        is_first_index(s, h, i),
        is_first_index(s, h, j),
    ensures
        i == j,
{
    if i < j {
        assert(s[i].handle != h);
    } else if j < i {
        assert(s[j].handle != h);
    }
}

/// Whether a step may start from the focused window at all.
pub fn anchor_usable(foreground: WindowHandle, minimized: bool, rect: Option<Rect>) -> (r: bool)
    ensures
        r == anchor_usable_spec(foreground, minimized, rect),
{
    !foreground.is_null() && !minimized && rect.is_some()
}

/// Keeps the windows that enumeration admits, with their rectangles.
pub fn build_snapshot(raw: &Vec<RawWindow>) -> (r: Vec<SnapshotEntry>)
    ensures
        r@ == snapshot_of(raw@),
{
    let mut r: Vec<SnapshotEntry> = Vec::new();
    let mut i: usize = 0;
    while i < raw.len()
        invariant
            i <= raw@.len(),
            r@ == snapshot_of(raw@.subrange(0, i as int)),
        decreases raw@.len() - i,
    {
        let w = raw[i];
        proof {
            assert(raw@.subrange(0, i + 1).drop_last() =~= raw@.subrange(0, i as int));
        }
        if admit_to_snapshot(w.visible, w.minimized, w.rect) {
            r.push(SnapshotEntry { handle: w.handle, rect: w.rect.unwrap() });
        }
        i = i + 1;
    }
    proof {
        assert(raw@.subrange(0, raw@.len() as int) =~= raw@);
    }
    r
}

/// Keeps the entries of the candidates that are real user windows.
pub fn filter_eligible(candidates: &Vec<Candidate>) -> (r: Vec<SnapshotEntry>)
    ensures
        r@ == eligible_entries(candidates@),
{
    let mut r: Vec<SnapshotEntry> = Vec::new();
    let mut i: usize = 0;
    while i < candidates.len()
        invariant
            i <= candidates@.len(),
            r@ == eligible_entries(candidates@.subrange(0, i as int)),
        decreases candidates@.len() - i,
    {
        proof {
            assert(candidates@.subrange(0, i + 1).drop_last() =~= candidates@.subrange(0, i as int));
        }
        if is_real_user_window(&candidates[i].attrs) {
            r.push(candidates[i].entry);
        }
        i = i + 1;
    }
    proof {
        assert(candidates@.subrange(0, candidates@.len() as int) =~= candidates@);
    }
    r
}

/// The window one step from `current` in direction `d` along `ordered`: the
/// entry before it or after it, if there is one. Nothing where `current` is
/// not listed, and nothing past either end.
pub fn neighbor(ordered: &Vec<SnapshotEntry>, current: WindowHandle, d: Direction) -> (r: Option<
    WindowHandle,
>)
    ensures
        r == neighbor_spec(ordered@, current, d),
{
    let mut i: usize = 0;
    while i < ordered.len()
        invariant
            i <= ordered@.len(),
            forall|k: int| 0 <= k < i ==> (#[trigger] ordered@[k]).handle != current,
        decreases ordered@.len() - i,
    {
        if ordered[i].handle == current {
            proof {
                assert(is_first_index(ordered@, current, i as int));
                let c = choose|c: int| is_first_index(ordered@, current, c);
                lemma_first_index_unique(ordered@, current, c, i as int);
            }
            return match d {
                Direction::Previous => if i > 0 {
                    Some(ordered[i - 1].handle)
                } else {
                    None
                },
                Direction::Next => if i + 1 < ordered.len() {
                    Some(ordered[i + 1].handle)
                } else {
                    None
                },
            };
        }
        i = i + 1;
    }
    None
}

/// The window that should receive focus for a step from `current` in
/// direction `d`: the real user windows among `candidates` are ordered by
/// left coordinate, and the neighbour of `current` in that order is chosen.
pub fn select_target(candidates: &Vec<Candidate>, current: WindowHandle, d: Direction) -> (r:
    Option<WindowHandle>)
    ensures
        r == target_spec(candidates@, current, d),
{
    let eligible = filter_eligible(candidates);
    let ordered = sort_by_left(&eligible);
    neighbor(&ordered, current, d)
}

} // verus!

verus! {

proof fn lemma_eligible_entries_from(c: Seq<Candidate>, k: int)
    requires
        0 <= k < eligible_entries(c).len(),
    ensures
        exists|i: int|
            0 <= i < c.len() && (#[trigger] c[i]).entry == eligible_entries(c)[k] && eligible_spec(
                c[i].attrs,
            ),
    decreases c.len(),
{
    let d = c.drop_last();
    let rest = eligible_entries(d);
    if k < rest.len() {
        lemma_eligible_entries_from(d, k);
        let i = choose|i: int|
            0 <= i < d.len() && (#[trigger] d[i]).entry == rest[k] && eligible_spec(d[i].attrs);
        assert(c[i] == d[i]);
    } else {
        assert(c[c.len() - 1].entry == eligible_entries(c)[k]);
    }
}

/// Stepping never wraps around: from the first window of the order there is
/// no previous one, and from the last there is no next one.
pub proof fn lemma_no_wraparound(s: Seq<SnapshotEntry>, h: WindowHandle)
    ensures
        is_first_index(s, h, 0) ==> neighbor_spec(s, h, Direction::Previous) is None,
        is_first_index(s, h, s.len() - 1) ==> neighbor_spec(s, h, Direction::Next) is None,
{
    if is_first_index(s, h, 0) {
        let c = choose|c: int| is_first_index(s, h, c);
        lemma_first_index_unique(s, h, c, 0);
    }
    if is_first_index(s, h, s.len() - 1) {
        let c = choose|c: int| is_first_index(s, h, c);
        lemma_first_index_unique(s, h, c, s.len() - 1);
    }
}

/// Where the focused window is not among the real user windows (no candidate
/// with its handle is accepted by the classifier), no target is selected in
/// either direction.
pub proof fn lemma_absent_anchor_no_target(
    candidates: Seq<Candidate>,
    current: WindowHandle,
    d: Direction,
)
    requires
        forall|i: int|
            0 <= i < candidates.len() && (#[trigger] candidates[i]).entry.handle == current
                ==> !eligible_spec(candidates[i].attrs),
    ensures
        target_spec(candidates, current, d) is None,
{
    let e = eligible_entries(candidates);
    let s = sorted_by_left(e);
    crate::order::lemma_sorted_by_left(e);
    assert forall|i: int| !is_first_index(s, current, i) by {
        if 0 <= i < s.len() && s[i].handle == current {
            assert(s.to_multiset().count(s[i]) > 0);
            assert(e.contains(s[i]));
            let k = choose|k: int| 0 <= k < e.len() && e[k] == s[i];
            lemma_eligible_entries_from(candidates, k);
        }
    }
}

/// With a single real user window there is nothing to step to, in either
/// direction.
pub proof fn lemma_single_window_no_target(
    candidates: Seq<Candidate>,
    current: WindowHandle,
    d: Direction,
)
    requires
        eligible_entries(candidates).len() == 1,
    ensures
        target_spec(candidates, current, d) is None,
{
    let e = eligible_entries(candidates);
    let s = sorted_by_left(e);
    crate::order::lemma_sorted_by_left(e);
    assert(s.len() == s.to_multiset().len());
    assert(e.len() == e.to_multiset().len());
    assert(s.len() == 1);
    if exists|i: int| is_first_index(s, current, i) {
        let c = choose|c: int| is_first_index(s, current, c);
        assert(c == 0);
    }
}

} // verus!
