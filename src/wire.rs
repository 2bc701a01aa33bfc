use vstd::prelude::*;

use crate::state::MicaMove;

verus! {

/// What an action of a reply does: "set", "move" or "remove" on the wire.
#[derive(Debug, Clone, Copy, PartialEq, Eq, Structural)]
pub enum Verb {
    Place,
    Slide,
    Remove,
}

/// One action tuple of a reply: the verb, the player as the request gave it, and the
/// coordinates in wire order (a slide gives its destination before its origin).
pub struct Action {
    pub verb: Verb,
    pub player: i8,
    pub cells: Vec<u8>,
}

/// The mathematical content of an action.
pub struct ActionModel {
    pub verb: Verb,
    pub player: i8,
    pub cells: Seq<u8>,
}

impl View for Action {
    type V = ActionModel;

    open spec fn view(&self) -> ActionModel {
        ActionModel { verb: self.verb, player: self.player, cells: self.cells@ }
    }
}

/// The actions that announce `m`: the placement or slide, then the removal if any.
pub open spec fn actions_of(player: i8, m: MicaMove) -> Seq<ActionModel> {
    match m {
        MicaMove::Place { x, y, z } => seq![
            ActionModel { verb: Verb::Place, player, cells: seq![x, y, z] },
        ],
        MicaMove::Move { from_x, from_y, from_z, to_x, to_y, to_z } => seq![
            ActionModel {
                verb: Verb::Slide,
                player,
                cells: seq![to_x, to_y, to_z, from_x, from_y, from_z],
            },
        ],
        MicaMove::SetRemove { x, y, z, remove_x, remove_y, remove_z } => seq![
            ActionModel { verb: Verb::Place, player, cells: seq![x, y, z] },
            ActionModel { verb: Verb::Remove, player, cells: seq![remove_x, remove_y, remove_z] },
        ],
        MicaMove::MoveRemove {
            from_x,
            from_y,
            from_z,
            to_x,
            to_y,
            to_z,
            remove_x,
            remove_y,
            remove_z,
        } => seq![
            ActionModel {
                verb: Verb::Slide,
                player,
                cells: seq![to_x, to_y, to_z, from_x, from_y, from_z],
            },
            ActionModel { verb: Verb::Remove, player, cells: seq![remove_x, remove_y, remove_z] },
        ],
    }
}

fn triple(a: u8, b: u8, c: u8) -> (r: Vec<u8>)
    ensures
        r@ == seq![a, b, c],
{
    let mut r: Vec<u8> = Vec::new();
    r.push(a);
    r.push(b);
    r.push(c);
    assert(r@ =~= seq![a, b, c]);
    r
}

fn slide_cells(to: (u8, u8, u8), from: (u8, u8, u8)) -> (r: Vec<u8>)
    ensures
        r@ == seq![to.0, to.1, to.2, from.0, from.1, from.2],
{
    let mut r = triple(to.0, to.1, to.2);
    r.push(from.0);
    r.push(from.1);
    r.push(from.2);
    assert(r@ =~= seq![to.0, to.1, to.2, from.0, from.1, from.2]);
    r
}

/// The action tuples that announce `m` for `player`.
pub fn move_actions(player: i8, m: MicaMove) -> (r: Vec<Action>)
    ensures
        r@.len() == actions_of(player, m).len(),
        forall|i: int| 0 <= i < r@.len() ==> (#[trigger] r@[i])@ == actions_of(player, m)[i],
{
    let mut r: Vec<Action> = Vec::new();
    match m {
        MicaMove::Place { x, y, z } => {
            r.push(Action { verb: Verb::Place, player, cells: triple(x, y, z) });
        },
        MicaMove::Move { from_x, from_y, from_z, to_x, to_y, to_z } => {
            r.push(
                Action {
                    verb: Verb::Slide,
                    player,
                    cells: slide_cells((to_x, to_y, to_z), (from_x, from_y, from_z)),
                },
            );
        },
        MicaMove::SetRemove { x, y, z, remove_x, remove_y, remove_z } => {
            r.push(Action { verb: Verb::Place, player, cells: triple(x, y, z) });
            r.push(
                Action { verb: Verb::Remove, player, cells: triple(remove_x, remove_y, remove_z) },
            );
        },
        MicaMove::MoveRemove {
            from_x,
            from_y,
            from_z,
            to_x,
            to_y,
            to_z,
            remove_x,
            remove_y,
            remove_z,
        } => {
            r.push(
                Action {
                    verb: Verb::Slide,
                    player,
                    cells: slide_cells((to_x, to_y, to_z), (from_x, from_y, from_z)),
                },
            );
            r.push(
                Action { verb: Verb::Remove, player, cells: triple(remove_x, remove_y, remove_z) },
            );
        },
    }
    r
}

} // verus!
