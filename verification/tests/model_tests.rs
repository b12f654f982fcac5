use framework::mat4::Mat4x4;
use framework::model::{Model, ModelNode};

fn node(id: u64) -> ModelNode {
    ModelNode {
        id,
        transform: Mat4x4::identity(),
        world_matrix: Mat4x4::identity(),
        mesh: None,
        shader: None,
        parent: None,
        sibling: None,
        child: None,
    }
}

fn world_of(model: &Model, id: u64) -> Mat4x4 {
    for n in model.ref_nodes() {
        if n.id == id {
            return n.world_matrix;
        }
    }
    panic!("node not found");
}

#[test]
fn three_node_scenario() {
    // root R (identity), child A (translation (1,0,0)), sibling-of-A B
    // (translation (0,1,0), also child of R)
    let mut r = node(1);
    r.child = Some(2);
    let mut a = node(2);
    a.parent = Some(1);
    a.sibling = Some(3);
    a.transform = Mat4x4::from_translation(1, 0, 0);
    let mut b = node(3);
    b.parent = Some(1);
    b.transform = Mat4x4::from_translation(0, 1, 0);

    let mut model = Model::from_nodes("scenario", 1, vec![r, a, b]).unwrap();
    model.update_transform(1, Some(Mat4x4::identity()));

    let wa = world_of(&model, 2);
    assert_eq!((wa.r4c1, wa.r4c2, wa.r4c3), (1, 0, 0));
    let wb = world_of(&model, 3);
    assert_eq!((wb.r4c1, wb.r4c2, wb.r4c3), (0, 1, 0));
    let wr = world_of(&model, 1);
    assert_eq!((wr.r4c1, wr.r4c2, wr.r4c3), (0, 0, 0));
}

#[test]
fn composition_law_concrete() {
    // N.world == N.local * P.world for the updated node
    let mut n = node(7);
    n.transform = Mat4x4::from_translation(1, 2, 3);
    let mut model = Model::from_nodes("single", 7, vec![n]).unwrap();
    let parent = Mat4x4::from_translation(10, 20, 30);
    model.update_transform(7, Some(parent));
    let w = world_of(&model, 7);
    let expected = Mat4x4::from_translation(1, 2, 3).mul_matrix4x4(parent);
    assert_eq!(w, expected);
    assert_eq!((w.r4c1, w.r4c2, w.r4c3), (11, 22, 33));
}

#[test]
fn update_twice_is_idempotent() {
    let mut r = node(1);
    r.child = Some(2);
    let mut a = node(2);
    a.parent = Some(1);
    a.transform = Mat4x4::from_translation(5, 6, 7);
    let mut model = Model::from_nodes("twice", 1, vec![r, a]).unwrap();
    let parent = Mat4x4::from_translation(-1, -2, -3);

    model.update_transform(1, Some(parent));
    let first: Vec<Mat4x4> = model.ref_nodes().iter().map(|n| n.world_matrix).collect();
    model.update_transform(1, Some(parent));
    let second: Vec<Mat4x4> = model.ref_nodes().iter().map(|n| n.world_matrix).collect();
    assert_eq!(first, second);
}

#[test]
fn cycle_fails_construction() {
    // node A's child is B, B's child is A
    let mut a = node(1);
    a.child = Some(2);
    let mut b = node(2);
    b.child = Some(1);
    assert!(Model::from_nodes("cyclic", 1, vec![a, b]).is_err());
}

#[test]
fn self_loop_fails_construction() {
    let mut a = node(1);
    a.sibling = Some(1);
    assert!(Model::from_nodes("loop", 1, vec![a]).is_err());
}

#[test]
fn shared_target_fails_construction() {
    // the same node as child of one node and sibling of another
    let mut r = node(1);
    r.child = Some(3);
    let mut s = node(2);
    s.sibling = Some(3);
    let shared = node(3);
    assert!(Model::from_nodes("diamond", 1, vec![r, s, shared]).is_err());
}

#[test]
fn duplicate_id_fails_construction() {
    assert!(Model::from_nodes("dup", 1, vec![node(1), node(1)]).is_err());
}

#[test]
fn dangling_link_fails_construction() {
    let mut a = node(1);
    a.child = Some(99);
    assert!(Model::from_nodes("dangling", 1, vec![a]).is_err());
}

#[test]
fn missing_root_fails_construction() {
    assert!(Model::from_nodes("no-root", 42, vec![node(1)]).is_err());
}

#[test]
fn valid_forest_in_any_order_is_accepted() {
    // children listed before their parent
    let mut a = node(2);
    a.parent = Some(1);
    a.transform = Mat4x4::from_translation(1, 0, 0);
    let mut r = node(1);
    r.child = Some(2);
    let model = Model::from_nodes("reordered", 1, vec![a, r]);
    assert!(model.is_ok());
}

#[test]
fn disconnected_nodes_form_a_valid_forest() {
    // a node the root never reaches is simply another root
    let r = node(1);
    let mut other = node(2);
    other.transform = Mat4x4::from_translation(4, 0, 0);
    let mut model = Model::from_nodes("forest", 1, vec![r, other]).unwrap();
    model.update_transform(2, Some(Mat4x4::identity()));
    assert_eq!(model.get_world_position(2), (4, 0, 0));
    // the traversal from the root does not reach the second tree
    let ids: Vec<u64> = model.ref_nodes().iter().map(|n| n.id).collect();
    assert_eq!(ids, vec![1]);
}

#[test]
fn update_without_parent_keeps_stored_world() {
    let mut a = node(1);
    a.world_matrix = Mat4x4::from_translation(9, 9, 9);
    a.transform = Mat4x4::from_translation(1, 1, 1);
    let mut model = Model::from_nodes("base", 1, vec![a]).unwrap();
    // with no parent matrix the stored world matrix is the composition base
    model.update_transform(1, None);
    let w = world_of(&model, 1);
    assert_eq!((w.r4c1, w.r4c2, w.r4c3), (9, 9, 9));
}

#[test]
fn set_position_moves_and_propagates() {
    let mut r = node(1);
    r.child = Some(2);
    let mut a = node(2);
    a.parent = Some(1);
    a.transform = Mat4x4::from_translation(1, 0, 0);
    let mut model = Model::from_nodes("move", 1, vec![r, a]).unwrap();
    model.update_transform(1, Some(Mat4x4::identity()));

    model.set_position(1, (100, 200, 300));
    assert_eq!(model.get_position(1), (100, 200, 300));
    // the root's world matrix keeps its previous value as composition base,
    // so the child recomputes against the old root world (identity here)
    let wa = world_of(&model, 2);
    assert_eq!((wa.r4c1, wa.r4c2, wa.r4c3), (1, 0, 0));
}

#[test]
fn translate_world_wraps() {
    let mut a = node(1);
    a.transform = Mat4x4::from_translation(i64::MAX, 0, 0);
    let mut model = Model::from_nodes("wrap", 1, vec![a]).unwrap();
    model.translate_world(1, (1, 5, 0));
    assert_eq!(model.get_position(1), (i64::MIN, 5, 0));
}

#[test]
fn rotate_from_matrix_premultiplies() {
    let mut a = node(1);
    a.transform = Mat4x4::from_translation(1, 2, 3);
    let mut model = Model::from_nodes("rot", 1, vec![a]).unwrap();
    // a quarter-turn permutation-style integer matrix: x -> y, y -> -x
    let rot = Mat4x4 {
        r1c1: 0,
        r1c2: 1,
        r1c3: 0,
        r1c4: 0,
        r2c1: -1,
        r2c2: 0,
        r2c3: 0,
        r2c4: 0,
        r3c1: 0,
        r3c2: 0,
        r3c3: 1,
        r3c4: 0,
        r4c1: 0,
        r4c2: 0,
        r4c3: 0,
        r4c4: 1,
    };
    model.rotate_from_matrix(1, rot);
    let expected = rot.mul_matrix4x4(Mat4x4::from_translation(1, 2, 3));
    let got = model.ref_nodes()[0].transform;
    assert_eq!(got, expected);
}

#[test]
fn basis_rows_read_back() {
    let mut model = Model::from_nodes("basis", 1, vec![node(1)]).unwrap();
    model.set_basis(1, (1, 2, 3), (4, 5, 6), (7, 8, 9));
    assert_eq!(model.get_local_right_vector(1), (1, 2, 3));
    assert_eq!(model.get_local_up_vector(1), (4, 5, 6));
    assert_eq!(model.get_local_look_vector(1), (7, 8, 9));
}

#[test]
fn ref_nodes_traversal_order() {
    // root 1 -> child 2, 2's sibling 3, 2's child 4: preorder visits the
    // node, then its sibling subtree, then its child subtree
    let mut r = node(1);
    r.child = Some(2);
    let mut a = node(2);
    a.sibling = Some(3);
    a.child = Some(4);
    let b = node(3);
    let c = node(4);
    let model = Model::from_nodes("order", 1, vec![r, a, b, c]).unwrap();
    let ids: Vec<u64> = model.ref_nodes().iter().map(|n| n.id).collect();
    assert_eq!(ids, vec![1, 2, 3, 4]);
}
