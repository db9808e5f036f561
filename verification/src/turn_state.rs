use vstd::prelude::*;

verus! {

/// The turn machine: input, player resolution and monster resolution cycle;
/// the two terminal states are left only by an explicit restart.
#[derive(Clone, Copy, PartialEq, Eq, Structural, Debug)]
pub enum TurnState {
    AwaitingInput,
    PlayerTurn,
    MonsterTurn,
    GameOver,
    Victory,
}

} // verus!
