use mica::{move_actions, MicaMove, Verb};

#[test]
fn place_is_one_set_action() {
    let a = move_actions(1, MicaMove::Place { x: 2, y: 0, z: 1 });
    assert_eq!(a.len(), 1);
    assert_eq!(a[0].verb, Verb::Place);
    assert_eq!(a[0].player, 1);
    assert_eq!(a[0].cells, vec![2, 0, 1]);
}

#[test]
fn slide_lists_destination_before_origin() {
    let a = move_actions(-1, MicaMove::Move { from_x: 0, from_y: 1, from_z: 0, to_x: 1, to_y: 1, to_z: 0 });
    assert_eq!(a.len(), 1);
    assert_eq!(a[0].verb, Verb::Slide);
    assert_eq!(a[0].player, -1);
    assert_eq!(a[0].cells, vec![1, 1, 0, 0, 1, 0]);
}

#[test]
fn removal_follows_the_move() {
    let a = move_actions(1, MicaMove::SetRemove { x: 0, y: 0, z: 2, remove_x: 2, remove_y: 2, remove_z: 1 });
    assert_eq!(a.len(), 2);
    assert_eq!((a[0].verb, a[0].cells.clone()), (Verb::Place, vec![0, 0, 2]));
    assert_eq!((a[1].verb, a[1].cells.clone()), (Verb::Remove, vec![2, 2, 1]));
    let b = move_actions(
        -1,
        MicaMove::MoveRemove {
            from_x: 0,
            from_y: 0,
            from_z: 0,
            to_x: 0,
            to_y: 1,
            to_z: 0,
            remove_x: 1,
            remove_y: 2,
            remove_z: 2,
        },
    );
    assert_eq!(b.len(), 2);
    assert_eq!((b[0].verb, b[0].cells.clone()), (Verb::Slide, vec![0, 1, 0, 0, 0, 0]));
    assert_eq!((b[1].verb, b[1].player, b[1].cells.clone()), (Verb::Remove, -1, vec![1, 2, 2]));
}
