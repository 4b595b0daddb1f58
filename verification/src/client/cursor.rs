//! Cursor grabbing: whether the game holds the cursor, and the countdown after which a freshly
//! grabbed cursor is moved to the centre of the window.
use vstd::prelude::*;

verus! {

/// The number of frames after grabbing the cursor at which it is centred.
pub const CENTER_CURSOR_DELAY: i32 = 2;

/// True when the cursor is grabbed and not available to UIs.
#[derive(Clone, Copy, Debug, PartialEq, Eq, Structural)]
pub struct IsCursorGrabbed(pub bool);

/// A request to grab (`true`) or free (`false`) the cursor.
#[derive(Clone, Copy, Debug, PartialEq, Eq, Structural)]
pub struct SetGrabMode(pub bool);

/// The cursor options of the game window.
#[derive(Clone, Copy, Debug, PartialEq, Eq, Structural)]
pub struct WindowCursor {
    /// The cursor is held by the window.
    pub grabbed: bool,
    /// The cursor is drawn.
    pub visible: bool,
}

/// A countdown, in frames, to centring the cursor.
#[derive(Clone, Copy, Debug, PartialEq, Eq, Structural)]
pub struct CenterCursorDelay(i32);

impl CenterCursorDelay {
    /// The countdown is still running.
    #[verifier::type_invariant]
    closed spec fn running(self) -> bool {
        self.0 > 0
    }

    /// The frames left.
    pub closed spec fn frames(self) -> i32 {
        self.0
    }

    /// The frames left.
    pub fn remaining(&self) -> (r: i32)
        ensures
            r == self.frames(),
            r > 0,
    {
        proof {
            use_type_invariant(self);
        }
        self.0
    }
}

/// The frames left on each countdown.
pub open spec fn delay_frames(delays: Seq<CenterCursorDelay>) -> Seq<i32> {
    delays.map_values(|d: CenterCursorDelay| d.frames())
}

/// The countdowns after one frame: each is decremented; when one reaches zero they are all
/// dropped. Also tells whether one reached zero.
pub open spec fn ticked_delays(frames: Seq<i32>) -> (Seq<i32>, bool) {
    let dec = frames.map_values(|d: i32| (d - 1) as i32);
    if dec.contains(0) {
        (Seq::empty(), true)
    } else {
        (dec, false)
    }
}

/// Applies a grab request. Nothing happens when the window already is in the asked mode;
/// otherwise pending centrings are dropped, the window grabs and hides the cursor (or frees and
/// shows it), the grabbed flag follows, and grabbing starts a new countdown. Returns, when the
/// mode changed, whether the UI takes keyboard and pointer input again (only while free).
pub fn update_grab_mode(
    trigger: SetGrabMode,
    window: &mut WindowCursor,
    state: &mut IsCursorGrabbed,
    delays: &mut Vec<CenterCursorDelay>,
) -> (r: Option<bool>)
    ensures
        old(window).grabbed == trigger.0 ==> r is None && *final(window) == *old(window) && *final(state)
            == *old(state) && delay_frames(final(delays)@) == delay_frames(old(delays)@),
        old(window).grabbed != trigger.0 ==> {
            &&& r == Some(!trigger.0)
            &&& *final(window) == (WindowCursor { grabbed: trigger.0, visible: !trigger.0 })
            &&& *final(state) == IsCursorGrabbed(trigger.0)
            &&& delay_frames(final(delays)@) == if trigger.0 {
                seq![CENTER_CURSOR_DELAY]
            } else {
                Seq::<i32>::empty()
            }
        },
{
    let new_grabbed = trigger.0;
    if window.grabbed == new_grabbed {
        return None;
    }
    let mut fresh: Vec<CenterCursorDelay> = Vec::new();
    if new_grabbed {
        fresh.push(CenterCursorDelay(CENTER_CURSOR_DELAY));
    }
    *delays = fresh;
    window.grabbed = new_grabbed;
    window.visible = !new_grabbed;
    *state = IsCursorGrabbed(new_grabbed);
    proof {
        if new_grabbed {
            assert(delay_frames(delays@) =~= seq![CENTER_CURSOR_DELAY]);
        } else {
            assert(delay_frames(delays@) =~= Seq::<i32>::empty());
        }
    }
    Some(!new_grabbed)
}

/// Advances the countdowns by one frame; returns whether the cursor is to be centred now: a
/// countdown reached zero while the window holds the cursor.
pub fn center_cursor_delay(window: &WindowCursor, delays: &mut Vec<CenterCursorDelay>) -> (center: bool)
    ensures
        delay_frames(final(delays)@) == ticked_delays(delay_frames(old(delays)@)).0,
        center == (ticked_delays(delay_frames(old(delays)@)).1 && window.grabbed),
{
    let ghost d0 = delay_frames(delays@);
    let ghost dec0 = d0.map_values(|d: i32| (d - 1) as i32);
    let mut reached = false;
    let mut i: usize = 0;
    while i < delays.len()
        invariant
            delay_frames(delays@) == d0,
            dec0 == d0.map_values(|d: i32| (d - 1) as i32),
            i <= d0.len(),
            reached <==> exists|k: int| 0 <= k < i && #[trigger] dec0[k] == 0,
        decreases d0.len() - i,
    {
        let d = delays[i].remaining();
        proof {
            assert(d0[i as int] == d);
            assert(dec0[i as int] == d - 1);
        }
        if d == 1 {
            reached = true;
        }
        i = i + 1;
    }
    if reached {
        proof {
            let k = choose|k: int| 0 <= k < d0.len() && #[trigger] dec0[k] == 0;
            assert(dec0.contains(0));
        }
        *delays = Vec::new();
        proof {
            assert(delay_frames(delays@) =~= Seq::<i32>::empty());
        }
        return window.grabbed;
    }
    proof {
        assert(!dec0.contains(0)) by {
            if dec0.contains(0) {
                let k = choose|k: int| 0 <= k < dec0.len() && dec0[k] == 0;
                assert(dec0[k] == 0);
            }
        }
    }
    let mut dec: Vec<CenterCursorDelay> = Vec::new();
    let mut j: usize = 0;
    while j < delays.len()
        invariant
            delay_frames(delays@) == d0,
            dec0 == d0.map_values(|d: i32| (d - 1) as i32),
            !dec0.contains(0),
            j <= d0.len(),
            dec@.len() == j,
            delay_frames(dec@) == dec0.take(j as int),
        decreases d0.len() - j,
    {
        let d = delays[j].remaining();
        proof {
            assert(d0[j as int] == d);
            assert(dec0[j as int] == d - 1);
            if d - 1 == 0 {
                assert(dec0.contains(0));
            }
        }
        let ghost before = dec@;
        dec.push(CenterCursorDelay(d - 1));
        proof {
            assert(dec@.drop_last() =~= before);
            assert(dec@.last().frames() == d - 1);
            assert(delay_frames(dec@) =~= delay_frames(before).push((d - 1) as i32));
            assert(dec0.take(j + 1) =~= dec0.take(j as int).push(dec0[j as int]));
            assert(delay_frames(dec@) =~= dec0.take(j + 1));
        }
        j = j + 1;
    }
    proof {
        assert(dec0.take(d0.len() as int) =~= dec0);
    }
    *delays = dec;
    false
}

/// On entering the game, the cursor is grabbed unless it already is.
pub fn initial_grab_cursor(state: &IsCursorGrabbed) -> (r: Option<SetGrabMode>)
    ensures
        r == if state.0 {
            None
        } else {
            Some(SetGrabMode(true))
        },
{
    if !state.0 {
        Some(SetGrabMode(true))
    } else {
        None
    }
}

/// Pressing the grab toggle key asks for the opposite of the current grab state.
pub fn cursor_grab(toggle_pressed: bool, state: &IsCursorGrabbed) -> (r: Option<SetGrabMode>)
    ensures
        r == if toggle_pressed {
            Some(SetGrabMode(!state.0))
        } else {
            None
        },
{
    if toggle_pressed {
        Some(SetGrabMode(!state.0))
    } else {
        None
    }
}

/// Grabs and hides the cursor, or frees and shows it; a window already in the asked mode is
/// left alone.
pub fn grab_window(window: &mut WindowCursor, should_grab: bool)
    ensures
        old(window).grabbed == should_grab ==> *final(window) == *old(window),
        old(window).grabbed != should_grab ==> *final(window) == (WindowCursor {
            grabbed: should_grab,
            visible: !should_grab,
        }),
{
    if should_grab {
        if !window.grabbed {
            window.grabbed = true;
            window.visible = false;
        }
    } else if window.grabbed {
        window.grabbed = false;
        window.visible = true;
    }
}

/// The fly camera's focus handling: while the window is focused the toggle key flips the grab;
/// an unfocused window frees the cursor.
pub fn grab_focus(window: &mut WindowCursor, focused: bool, toggle_pressed: bool)
    ensures
        focused && toggle_pressed ==> final(window).grabbed == !old(window).grabbed
            && final(window).visible == old(window).grabbed,
        focused && !toggle_pressed ==> *final(window) == *old(window),
        !focused && old(window).grabbed ==> *final(window) == (WindowCursor { grabbed: false, visible: true }),
        !focused && !old(window).grabbed ==> *final(window) == *old(window),
{
    if focused {
        if toggle_pressed {
            let should_grab = !window.grabbed;
            grab_window(window, should_grab);
        }
    } else if window.grabbed {
        grab_window(window, false);
    }
}

/// Grabbing a free cursor gets it centred on the second frame after, and not on the first.
pub proof fn lemma_grab_centers_after_delay()
    ensures
        !ticked_delays(seq![CENTER_CURSOR_DELAY]).1,
        ticked_delays(ticked_delays(seq![CENTER_CURSOR_DELAY]).0).1,
{
    let first = seq![CENTER_CURSOR_DELAY].map_values(|d: i32| (d - 1) as i32);
    assert(first =~= seq![1i32]);
    assert(!first.contains(0)) by {
        if first.contains(0) {
            let k = choose|k: int| 0 <= k < first.len() && first[k] == 0;
        }
    }
    let second = first.map_values(|d: i32| (d - 1) as i32);
    assert(second =~= seq![0i32]);
    assert(second[0] == 0);
}

} // verus!
