//! Keyboard and mouse control decisions of the time-series chart:
//! which key does what, which way the wheel zooms, and how a left-drag
//! turns into column deltas to pan by.

use vstd::prelude::*;

verus! {

/// What a key asks the chart to do.
#[derive(Clone, Copy, Debug, PartialEq, Eq, Structural)]
pub enum ChartKey {
    /// Zoom in (halve the window).
    ZoomIn,
    /// Zoom out (double the window).
    ZoomOut,
    /// Pan left by a tenth of the window.
    PanLeft,
    /// Pan right by a tenth of the window.
    PanRight,
    /// Snap back to the live edge and follow it.
    ResetLive,
}

/// The key bindings: `+` or `=` zoom in, `-` zooms out, `h` or
/// `ArrowLeft` pans left, `l` or `ArrowRight` pans right, `0` returns to
/// the live edge; every other key does nothing.
pub open spec fn key_action_spec(key: Seq<char>) -> Option<ChartKey> {
    if key == seq!['+'] || key == seq!['='] {
        Some(ChartKey::ZoomIn)
    } else if key == seq!['-'] {
        Some(ChartKey::ZoomOut)
    } else if key == seq!['h'] || key == seq!['A', 'r', 'r', 'o', 'w', 'L', 'e', 'f', 't'] {
        Some(ChartKey::PanLeft)
    } else if key == seq!['l'] || key == seq!['A', 'r', 'r', 'o', 'w', 'R', 'i', 'g', 'h', 't'] {
        Some(ChartKey::PanRight)
    } else if key == seq!['0'] {
        Some(ChartKey::ResetLive)
    } else {
        None
    }
}

/// Exactly the eight documented keys have an action, each with its fixed
/// binding: `+` and `=` zoom in, `-` zooms out, `h` and `ArrowLeft` pan
/// left, `l` and `ArrowRight` pan right, `0` returns to the live edge.
/// Any other key (such as `Escape`) is left unhandled.
pub proof fn lemma_key_bindings(key: Seq<char>)
    ensures
        key_action_spec(key) is Some <==> (key == seq!['+'] || key == seq!['='] || key == seq!['-']
            || key == seq!['h'] || key == seq!['A', 'r', 'r', 'o', 'w', 'L', 'e', 'f', 't'] || key
            == seq!['l'] || key == seq!['A', 'r', 'r', 'o', 'w', 'R', 'i', 'g', 'h', 't'] || key
            == seq!['0']),
        key == seq!['+'] ==> key_action_spec(key) == Some(ChartKey::ZoomIn),
        key == seq!['='] ==> key_action_spec(key) == Some(ChartKey::ZoomIn),
        key == seq!['-'] ==> key_action_spec(key) == Some(ChartKey::ZoomOut),
        key == seq!['h'] ==> key_action_spec(key) == Some(ChartKey::PanLeft),
        key == seq!['A', 'r', 'r', 'o', 'w', 'L', 'e', 'f', 't'] ==> key_action_spec(key) == Some(
            ChartKey::PanLeft,
        ),
        key == seq!['l'] ==> key_action_spec(key) == Some(ChartKey::PanRight),
        key == seq!['A', 'r', 'r', 'o', 'w', 'R', 'i', 'g', 'h', 't'] ==> key_action_spec(key)
            == Some(ChartKey::PanRight),
        key == seq!['0'] ==> key_action_spec(key) == Some(ChartKey::ResetLive),
{
    assert(seq!['+'] != seq!['='] && seq!['+'] != seq!['-'] && seq!['='] != seq!['-']) by {
        assert(seq!['+'][0] != seq!['='][0]);
        assert(seq!['+'][0] != seq!['-'][0]);
        assert(seq!['='][0] != seq!['-'][0]);
    }
    assert(seq!['h'][0] != seq!['+'][0] && seq!['h'][0] != seq!['='][0] && seq!['h'][0] != seq!['-'][0]);
    assert(seq!['l'][0] != seq!['+'][0] && seq!['l'][0] != seq!['='][0] && seq!['l'][0] != seq!['-'][0]
        && seq!['l'][0] != seq!['h'][0]);
    assert(seq!['0'][0] != seq!['+'][0] && seq!['0'][0] != seq!['='][0] && seq!['0'][0] != seq!['-'][0]
        && seq!['0'][0] != seq!['h'][0] && seq!['0'][0] != seq!['l'][0]);
}

fn str_equals(key: &str, target: &[char]) -> (r: bool)
    ensures
        r == (key@ == target@),
{
    let n = key.unicode_len();
    if n != target.len() {
        return false;
    }
    let mut i: usize = 0;
    while i < n
        invariant
            n == key@.len(),
            n == target@.len(),
            i <= n,
            forall|j: int| 0 <= j < i ==> key@[j] == target@[j],
        decreases n - i,
    {
        if key.get_char(i) != target[i] {
            return false;
        }
        i = i + 1;
    }
    proof {
        assert(key@ =~= target@);
    }
    true
}

/// The action bound to `key` (a keyboard event's key name), if any.
pub fn key_action(key: &str) -> (r: Option<ChartKey>)
    ensures
        r == key_action_spec(key@),
{
    let plus = ['+'];
    let equals = ['='];
    let minus = ['-'];
    let h = ['h'];
    let left = ['A', 'r', 'r', 'o', 'w', 'L', 'e', 'f', 't'];
    let l = ['l'];
    let right = ['A', 'r', 'r', 'o', 'w', 'R', 'i', 'g', 'h', 't'];
    let zero = ['0'];
    proof {
        assert(plus@ =~= seq!['+']);
        assert(equals@ =~= seq!['=']);
        assert(minus@ =~= seq!['-']);
        assert(h@ =~= seq!['h']);
        assert(left@ =~= seq!['A', 'r', 'r', 'o', 'w', 'L', 'e', 'f', 't']);
        assert(l@ =~= seq!['l']);
        assert(right@ =~= seq!['A', 'r', 'r', 'o', 'w', 'R', 'i', 'g', 'h', 't']);
        assert(zero@ =~= seq!['0']);
    }
    if str_equals(key, &plus) || str_equals(key, &equals) {
        Some(ChartKey::ZoomIn)
    } else if str_equals(key, &minus) {
        Some(ChartKey::ZoomOut)
    } else if str_equals(key, &h) || str_equals(key, &left) {
        Some(ChartKey::PanLeft)
    } else if str_equals(key, &l) || str_equals(key, &right) {
        Some(ChartKey::PanRight)
    } else if str_equals(key, &zero) {
        Some(ChartKey::ResetLive)
    } else {
        None
    }
}

/// Whether a wheel event zooms in: scrolling up (a negative vertical
/// delta) zooms in, anything else zooms out.
pub fn wheel_zooms_in(delta_y: i32) -> (r: bool)
    ensures
        r == (delta_y < 0),
{
    delta_y < 0
}

/// A left-drag gesture event, with the pointer's column where it has one.
#[derive(Clone, Copy, Debug, PartialEq, Eq, Structural)]
pub enum DragEvent {
    /// Button pressed at a column.
    Down(i32),
    /// Pointer moved to a column.
    Move(i32),
    /// Button released.
    Up,
}

/// The drag gesture as a function: the new anchor and the column delta
/// to pan by (see `drag_step`).
pub open spec fn drag_step_spec(anchor: Option<i32>, ev: DragEvent) -> (Option<i32>, Option<i64>) {
    match ev {
        DragEvent::Down(x) => (Some(x), None),
        DragEvent::Up => (None, None),
        DragEvent::Move(x) => match anchor {
            None => (None, None),
            Some(a) => if x == a {
                (Some(a), None)
            } else {
                (Some(x), Some((x - a) as i64))
            },
        },
    }
}

/// Anchor after a series of pointer moves, and the total columns panned.
pub open spec fn drag_moves(anchor: Option<i32>, xs: Seq<i32>) -> (Option<i32>, int)
    decreases xs.len(),
{
    if xs.len() == 0 {
        (anchor, 0)
    } else {
        let prev = drag_moves(anchor, xs.drop_last());
        let r = drag_step_spec(prev.0, DragEvent::Move(xs.last()));
        (
            r.0,
            prev.1 + match r.1 {
                Some(d) => d as int,
                None => 0,
            },
        )
    }
}

/// A drag pans by exactly the distance the pointer travelled: starting
/// from an anchor `a`, any series of moves pans by a total of the last
/// position minus `a`, and leaves the drag anchored at the last position.
/// Without an anchor, moves pan nothing.
pub proof fn lemma_drag_pans_by_distance(anchor: Option<i32>, xs: Seq<i32>)
    ensures
        anchor matches Some(a) ==> drag_moves(anchor, xs) == (
            Some(if xs.len() == 0 { a } else { xs.last() }),
            (if xs.len() == 0 { a } else { xs.last() }) - a,
        ),
        anchor is None ==> drag_moves(anchor, xs) == (None::<i32>, 0int),
    decreases xs.len(),
{
    if xs.len() > 0 {
        lemma_drag_pans_by_distance(anchor, xs.drop_last());
    }
}

/// One step of the drag-to-pan gesture: from the current anchor column
/// (`None` when no drag is in progress) and an event, the new anchor and
/// the column delta to pan by, if any. A press anchors the drag; a
/// release ends it; a move while dragging pans by the distance from the
/// anchor and re-anchors at the pointer, unless the pointer has not moved.
pub fn drag_step(anchor: Option<i32>, ev: DragEvent) -> (r: (Option<i32>, Option<i64>))
    ensures
        r == drag_step_spec(anchor, ev),
        ev matches DragEvent::Down(x) ==> r == (Some(x), None::<i64>),
        ev is Up ==> r == (None::<i32>, None::<i64>),
        ev matches DragEvent::Move(x) ==> {
            match anchor {
                None => r == (None::<i32>, None::<i64>),
                Some(a) => if x == a {
                    r == (Some(a), None::<i64>)
                } else {
                    r == (Some(x), Some((x - a) as i64))
                },
            }
        },
{
    match ev {
        DragEvent::Down(x) => (Some(x), None),
        DragEvent::Up => (None, None),
        DragEvent::Move(x) => match anchor {
            None => (None, None),
            Some(a) => {
                if x == a {
                    (Some(a), None)
                } else {
                    (Some(x), Some(x as i64 - a as i64))
                }
            },
        },
    }
}

} // verus!
