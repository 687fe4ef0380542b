use ssbh_material::bones::{match_skel_order, move_bone, BillboardType, Bone, Skeleton, Transform};
use ssbh_material::params::Vector4;

fn zero_transform() -> Transform {
    Transform {
        col0: Vector4::default(),
        col1: Vector4::default(),
        col2: Vector4::default(),
        col3: Vector4::default(),
    }
}

fn bone(name: &str, parent_index: Option<usize>) -> Bone {
    Bone {
        name: name.to_string(),
        transform: zero_transform(),
        parent_index,
        billboard_type: BillboardType::Disabled,
    }
}

#[test]
fn skel_order_empty_reference() {
    let mut skel = Skeleton {
        major_version: 1,
        minor_version: 0,
        bones: vec![bone("a", None), bone("b", None), bone("c", None)],
    };

    let reference = Skeleton {
        major_version: 1,
        minor_version: 0,
        bones: Vec::new(),
    };

    match_skel_order(&mut skel, &reference);

    assert_eq!("a", skel.bones[0].name);
    assert_eq!("b", skel.bones[1].name);
    assert_eq!("c", skel.bones[2].name);
}

#[test]
fn skel_order_added_bonees() {
    let mut skel = Skeleton {
        major_version: 1,
        minor_version: 0,
        bones: vec![bone("a", None), bone("b", None), bone("c", None)],
    };

    let reference = Skeleton {
        major_version: 1,
        minor_version: 0,
        bones: vec![bone("c", None)],
    };

    match_skel_order(&mut skel, &reference);

    assert_eq!("c", skel.bones[0].name);
    assert_eq!("a", skel.bones[1].name);
    assert_eq!("b", skel.bones[2].name);
}

#[test]
fn swap_bones_same_indices() {
    let before = vec![bone("a", None), bone("b", Some(0))];

    let after = move_bone(0, 0, &before);
    assert_eq!(before, after);
}

#[test]
fn swap_bones_different_indices() {
    let before = vec![bone("a", None), bone("b", Some(0))];

    // The target index is 1 higher than expected when moving down.
    let after = move_bone(0, 2, &before);
    assert_eq!(vec![bone("b", Some(1)), bone("a", None)], after);
}

#[test]
fn swap_bones_with_parents() {
    let before = vec![
        bone("a", Some(1)),
        bone("b", Some(0)),
        bone("c", Some(0)),
        bone("d", Some(2)),
    ];

    // Swap b and c.
    // The bones should still point to the correct parents.
    let after = move_bone(1, 3, &before);
    assert_eq!(
        vec![
            bone("a", Some(2)),
            bone("c", Some(0)),
            bone("b", Some(0)),
            bone("d", Some(1)),
        ],
        after
    );
}

#[test]
fn match_skel_order_reorders_by_reference() {
    let mut skel = Skeleton {
        major_version: 1,
        minor_version: 0,
        bones: vec![bone("hip", None), bone("arm", Some(0)), bone("leg", Some(0))],
    };

    let reference = Skeleton {
        major_version: 1,
        minor_version: 0,
        bones: vec![bone("leg", None), bone("hip", None), bone("arm", None)],
    };

    match_skel_order(&mut skel, &reference);

    assert_eq!("leg", skel.bones[0].name);
    assert_eq!("hip", skel.bones[1].name);
    assert_eq!("arm", skel.bones[2].name);
    assert_eq!(1, skel.major_version);
    assert_eq!(0, skel.minor_version);
}

#[test]
fn move_bone_to_front() {
    let before = vec![bone("a", None), bone("b", Some(0)), bone("c", Some(1))];

    let after = move_bone(2, 0, &before);
    assert_eq!(
        vec![bone("c", Some(2)), bone("a", None), bone("b", Some(1))],
        after
    );
}

#[test]
fn move_bone_clears_invalid_parent() {
    // A parent index past the end of the list matches no bone and is
    // cleared by the move.
    let before = vec![bone("a", Some(9)), bone("b", Some(0))];

    let after = move_bone(0, 2, &before);
    assert_eq!(vec![bone("b", Some(1)), bone("a", None)], after);
}
