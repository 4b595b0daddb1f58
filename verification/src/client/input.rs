//! Player input: the key bindings, and what a pressed key or button asks for.
use vstd::prelude::*;

use crate::voxel::plugin::BlockActionKind;

verus! {

/// A keyboard key, by its code in the windowing layer.
#[derive(Clone, Copy, Debug, PartialEq, Eq, Structural)]
pub struct KeyId(pub u32);

/// A mouse button, by its code in the windowing layer.
#[derive(Clone, Copy, Debug, PartialEq, Eq, Structural)]
pub struct MouseButtonId(pub u32);

/// Key configuration.
#[derive(Clone, Copy, Debug, PartialEq, Eq, Structural)]
pub struct KeyBindings {
    pub move_forward: KeyId,
    pub move_backward: KeyId,
    pub move_left: KeyId,
    pub move_right: KeyId,
    pub move_ascend: KeyId,
    pub move_descend: KeyId,
    pub open_chat: KeyId,
    pub toggle_grab_cursor: KeyId,
    pub place_block: MouseButtonId,
    pub break_block: MouseButtonId,
}

/// A direction the camera moves in.
#[derive(Clone, Copy, Debug, PartialEq, Eq, Structural)]
pub enum MoveDirection {
    Forward,
    Backward,
    Left,
    Right,
    Ascend,
    Descend,
}

/// The movement a held key asks for: the first binding it matches, in the order forward,
/// backward, left, right, ascend, descend.
pub open spec fn key_movement_spec(key: KeyId, b: KeyBindings) -> Option<MoveDirection> {
    if key == b.move_forward {
        Some(MoveDirection::Forward)
    } else if key == b.move_backward {
        Some(MoveDirection::Backward)
    } else if key == b.move_left {
        Some(MoveDirection::Left)
    } else if key == b.move_right {
        Some(MoveDirection::Right)
    } else if key == b.move_ascend {
        Some(MoveDirection::Ascend)
    } else if key == b.move_descend {
        Some(MoveDirection::Descend)
    } else {
        None
    }
}

/// The key bound to moving in direction `d`.
pub open spec fn binding_for(b: KeyBindings, d: MoveDirection) -> KeyId {
    match d {
        MoveDirection::Forward => b.move_forward,
        MoveDirection::Backward => b.move_backward,
        MoveDirection::Left => b.move_left,
        MoveDirection::Right => b.move_right,
        MoveDirection::Ascend => b.move_ascend,
        MoveDirection::Descend => b.move_descend,
    }
}

/// A key moves the camera only in a direction it is bound to; with the six movement keys bound
/// to distinct keys, each of them moves the camera in its own direction.
pub proof fn lemma_keys_move_in_their_own_direction(key: KeyId, b: KeyBindings, d: MoveDirection)
    ensures
        key_movement_spec(key, b) matches Some(m) ==> key == binding_for(b, m),
        key_movement_spec(key, b) is None ==> forall|m: MoveDirection| key != #[trigger] binding_for(b, m),
        ({
            let keys = seq![b.move_forward, b.move_backward, b.move_left, b.move_right, b.move_ascend, b.move_descend];
            forall|i: int, j: int| 0 <= i < j < 6 ==> keys[i] != keys[j]
        }) ==> key_movement_spec(binding_for(b, d), b) == Some(d),
{
    let keys = seq![b.move_forward, b.move_backward, b.move_left, b.move_right, b.move_ascend, b.move_descend];
    assert(keys[0] == b.move_forward && keys[1] == b.move_backward && keys[2] == b.move_left);
    assert(keys[3] == b.move_right && keys[4] == b.move_ascend && keys[5] == b.move_descend);
    if key_movement_spec(key, b) is None {
        assert forall|m: MoveDirection| key != #[trigger] binding_for(b, m) by {
            match m {
                MoveDirection::Forward => {},
                MoveDirection::Backward => {},
                MoveDirection::Left => {},
                MoveDirection::Right => {},
                MoveDirection::Ascend => {},
                MoveDirection::Descend => {},
            }
        }
    }
}

/// The movement a held key asks for, when the cursor is grabbed (a free cursor moves nothing).
pub fn key_movement(key: KeyId, bindings: &KeyBindings, cursor_grabbed: bool) -> (r: Option<MoveDirection>)
    ensures
        r == if cursor_grabbed {
            key_movement_spec(key, *bindings)
        } else {
            None
        },
{
    if !cursor_grabbed {
        return None;
    }
    if key == bindings.move_forward {
        Some(MoveDirection::Forward)
    } else if key == bindings.move_backward {
        Some(MoveDirection::Backward)
    } else if key == bindings.move_left {
        Some(MoveDirection::Left)
    } else if key == bindings.move_right {
        Some(MoveDirection::Right)
    } else if key == bindings.move_ascend {
        Some(MoveDirection::Ascend)
    } else if key == bindings.move_descend {
        Some(MoveDirection::Descend)
    } else {
        None
    }
}

/// The block action a just-pressed mouse button asks for, when the cursor is grabbed: placing
/// is checked before breaking.
pub fn button_block_action(button: MouseButtonId, bindings: &KeyBindings, cursor_grabbed: bool) -> (r: Option<
    BlockActionKind,
>)
    ensures
        r == if !cursor_grabbed {
            None
        } else if button == bindings.place_block {
            Some(BlockActionKind::PlaceBlock)
        } else if button == bindings.break_block {
            Some(BlockActionKind::BreakBlock)
        } else {
            None
        },
{
    if !cursor_grabbed {
        None
    } else if button == bindings.place_block {
        Some(BlockActionKind::PlaceBlock)
    } else if button == bindings.break_block {
        Some(BlockActionKind::BreakBlock)
    } else {
        None
    }
}

/// The fly camera's movement along its forward, up and right axes for the held keys: each
/// axis is `1`, `-1` or `0`, and opposite keys cancel out.
pub fn flycam_direction(forwards: bool, back: bool, right: bool, left: bool, up: bool, down: bool) -> (r: (i8, i8, i8))
    ensures
        r.0 == (if forwards { 1int } else { 0 }) - (if back { 1int } else { 0 }),
        r.1 == (if up { 1int } else { 0 }) - (if down { 1int } else { 0 }),
        r.2 == (if right { 1int } else { 0 }) - (if left { 1int } else { 0 }),
{
    let mut x_dir: i8 = 0;
    let mut y_dir: i8 = 0;
    let mut z_dir: i8 = 0;
    if forwards {
        x_dir = x_dir + 1;
    }
    if back {
        x_dir = x_dir - 1;
    }
    if right {
        z_dir = z_dir + 1;
    }
    if left {
        z_dir = z_dir - 1;
    }
    if up {
        y_dir = y_dir + 1;
    }
    if down {
        y_dir = y_dir - 1;
    }
    (x_dir, y_dir, z_dir)
}

} // verus!
