use framework::error::RuntimeError;
use framework::id::{MeshID, ShaderID, SystemID};
use framework::scene::{FramePlan, SceneManager, SceneRequest};

const MAIN: u64 = 1;
const OVERLAY: u64 = 2;
const TITLE: u64 = 3;

fn manager() -> SceneManager {
    SceneManager::new(vec![MAIN, OVERLAY, TITLE], MAIN).unwrap()
}

#[test]
fn construction_requires_registered_entry_point() {
    assert!(SceneManager::new(vec![MAIN, OVERLAY], MAIN).is_ok());
    assert!(SceneManager::new(vec![MAIN, OVERLAY], 99).is_err());
    assert!(SceneManager::new(vec![], MAIN).is_err());
}

#[test]
fn no_request_keeps_current_scene() {
    let mut m = manager();
    let plan = m.plan_frame(None).unwrap();
    assert_eq!(
        plan,
        FramePlan { exit_scene: None, enter_scene: None, current: MAIN }
    );
    assert_eq!(m.current_scene(), MAIN);
}

#[test]
fn push_stacks_without_exiting() {
    let mut m = manager();
    let plan = m.plan_frame(Some(SceneRequest::Push { id: OVERLAY })).unwrap();
    assert_eq!(
        plan,
        FramePlan { exit_scene: None, enter_scene: Some(OVERLAY), current: OVERLAY }
    );
    assert_eq!(m.current_scene(), OVERLAY);
    // popping the overlay re-activates the scene below
    let plan = m.plan_frame(Some(SceneRequest::Pop)).unwrap();
    assert_eq!(
        plan,
        FramePlan { exit_scene: Some(OVERLAY), enter_scene: None, current: MAIN }
    );
    assert_eq!(m.current_scene(), MAIN);
}

#[test]
fn change_exits_and_replaces() {
    let mut m = manager();
    let plan = m.plan_frame(Some(SceneRequest::Change { id: TITLE })).unwrap();
    assert_eq!(
        plan,
        FramePlan { exit_scene: Some(MAIN), enter_scene: Some(TITLE), current: TITLE }
    );
    assert_eq!(m.current_scene(), TITLE);
}

#[test]
fn popping_the_last_scene_is_fatal() {
    let mut m = manager();
    let e: RuntimeError = m.plan_frame(Some(SceneRequest::Pop)).unwrap_err();
    assert_eq!(e.what(), "Cannot pop the last scene.");
    assert_eq!(m.current_scene(), MAIN);
}

#[test]
fn transition_to_unregistered_scene_is_fatal() {
    let mut m = manager();
    assert!(m.plan_frame(Some(SceneRequest::Push { id: 99 })).is_err());
    assert!(m.plan_frame(Some(SceneRequest::Change { id: 99 })).is_err());
    assert_eq!(m.current_scene(), MAIN);
}

#[test]
fn mesh_id_selection() {
    assert_eq!(MeshID::from_index(0), MeshID::Triangle);
    assert_eq!(MeshID::from_index(1), MeshID::Quad);
    assert_eq!(MeshID::from_index(2), MeshID::Cube);
    assert_eq!(MeshID::from_index(7), MeshID::Cube);
}

#[test]
fn single_variant_id_selection() {
    assert_eq!(SystemID::from_index(0), SystemID::Rotation);
    assert_eq!(SystemID::from_index(9), SystemID::Rotation);
    assert_eq!(ShaderID::from_index(0), ShaderID::Default);
}
