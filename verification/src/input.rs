//! What the keys do: they move the camera, close the window and switch
//! the shadows on and off.

use vstd::prelude::*;

verus! {

/// What a key is doing.
#[derive(Clone, Copy, Debug, PartialEq, Eq, Structural)]
pub enum KeyAction {
    Release,
    Press,
    Repeat,
}

/// The keys that matter, as they are at one moment.
#[derive(Clone, Copy, Debug, PartialEq, Eq, Structural)]
pub struct Keys {
    pub escape: KeyAction,
    pub w: KeyAction,
    pub s: KeyAction,
    pub a: KeyAction,
    pub d: KeyAction,
    pub space: KeyAction,
}

/// A move of the camera.
#[derive(Clone, Copy, Debug, PartialEq, Eq, Structural)]
pub enum CameraMove {
    Forward,
    Backward,
    Left,
    Right,
}

/// What follows from the keys.
#[derive(Debug)]
pub struct InputOutcome {
    /// Whether the window is to close.
    pub close: bool,
    /// The moves of the camera, in the order in which to make them.
    pub moves: Vec<CameraMove>,
}

/// The move that a key asks for, if it is pressed.
pub open spec fn move_if(key: KeyAction, m: CameraMove) -> Seq<CameraMove> {
    if key == KeyAction::Press {
        seq![m]
    } else {
        Seq::empty()
    }
}

/// The moves that the keys ask for: forward, backward, left, right.
pub open spec fn moves_spec(keys: Keys) -> Seq<CameraMove> {
    move_if(keys.w, CameraMove::Forward) + move_if(keys.s, CameraMove::Backward) + move_if(
        keys.a,
        CameraMove::Left,
    ) + move_if(keys.d, CameraMove::Right)
}

/// Whether the shadows are on after the space key has done `space`: a
/// press switches them, unless the key was down already.
pub open spec fn shadows_after(held: bool, shadows: bool, space: KeyAction) -> bool {
    if space == KeyAction::Press && !held {
        !shadows
    } else {
        shadows
    }
}

/// Whether the space key counts as down after it has done `space`: from a
/// press until a release.
pub open spec fn held_after(held: bool, space: KeyAction) -> bool {
    match space {
        KeyAction::Press => true,
        KeyAction::Release => false,
        KeyAction::Repeat => held,
    }
}

/// Decides what follows from the keys. The escape key closes the window;
/// W, S, A and D move the camera; the space key switches the shadows once
/// for each time it goes down.
#[allow(non_snake_case)]
pub fn processInput(keys: &Keys, shadowsKeyPressed: &mut bool, shadows: &mut bool) -> (r:
    InputOutcome)
    ensures
        r.close == (keys.escape == KeyAction::Press),
        r.moves@ == moves_spec(*keys),
        *final(shadows) == shadows_after(*old(shadowsKeyPressed), *old(shadows), keys.space),
        *final(shadowsKeyPressed) == held_after(*old(shadowsKeyPressed), keys.space),
{
    let close = keys.escape == KeyAction::Press;
    let mut moves: Vec<CameraMove> = Vec::new();
    if keys.w == KeyAction::Press {
        moves.push(CameraMove::Forward);
    }
    assert(moves@ =~= move_if(keys.w, CameraMove::Forward));
    if keys.s == KeyAction::Press {
        moves.push(CameraMove::Backward);
    }
    assert(moves@ =~= move_if(keys.w, CameraMove::Forward) + move_if(keys.s, CameraMove::Backward));
    if keys.a == KeyAction::Press {
        moves.push(CameraMove::Left);
    }
    assert(moves@ =~= move_if(keys.w, CameraMove::Forward) + move_if(keys.s, CameraMove::Backward)
        + move_if(keys.a, CameraMove::Left));
    if keys.d == KeyAction::Press {
        moves.push(CameraMove::Right);
    }
    assert(moves@ =~= moves_spec(*keys));
    if keys.space == KeyAction::Press && !*shadowsKeyPressed {
        *shadows = !*shadows;
        *shadowsKeyPressed = true;
    }
    if keys.space == KeyAction::Release {
        *shadowsKeyPressed = false;
    }
    InputOutcome { close, moves }
}

/// While the space key stays down the shadows are switched once, however
/// often the keys are looked at.
pub proof fn lemma_toggle_once(held: bool, shadows: bool)
    ensures
        ({
            let s1 = shadows_after(held, shadows, KeyAction::Press);
            let h1 = held_after(held, KeyAction::Press);
            &&& h1
            &&& shadows_after(h1, s1, KeyAction::Press) == s1
            &&& shadows_after(h1, s1, KeyAction::Repeat) == s1
        }),
{
}

} // verus!
