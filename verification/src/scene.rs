//! The scene manager: a stack machine over registered scenes.
//!
//! Scenes themselves live outside the library behind a capability
//! interface; the manager owns the stack of active scene ids and decides,
//! once per tick, which scene must exit, which must enter and which runs
//! the tick, from the request the current scene raised.

use vstd::prelude::*;
use vstd::string::*;

use crate::error::RuntimeError;

verus! {

/// A transition the current scene requests.
#[derive(Debug, Clone, Copy, PartialEq, Eq, Structural)]
pub enum SceneRequest {
    /// Leave the current scene and return to the one below it.
    Pop,
    /// Stack a new scene on top without leaving the current one.
    Push { id: u64 },
    /// Replace the current scene.
    Change { id: u64 },
}

/// What one tick must do before update and draw run: which scene exits,
/// which enters, and which is current afterwards.
#[derive(Debug, Clone, Copy, PartialEq, Eq, Structural)]
pub struct FramePlan {
    pub exit_scene: Option<u64>,
    pub enter_scene: Option<u64>,
    pub current: u64,
}

/// `id` occurs in `ids`.
pub open spec fn id_registered(ids: Seq<u64>, id: u64) -> bool {
    exists|j: int| 0 <= j < ids.len() && #[trigger] ids[j] == id
}

/// A manager over the registered scene ids; the stack holds the active
/// scenes, its last element current.
pub struct SceneManager {
    stack: Vec<u64>,
    registered: Vec<u64>,
}

/// Whether `ids` contains `id`.
fn ids_contain(ids: &Vec<u64>, id: u64) -> (r: bool)
    ensures
        r == id_registered(ids@, id),
{
    let n = ids.len();
    for j in 0..n
        invariant
            n == ids@.len(),
            forall|k: int| 0 <= k < j ==> #[trigger] ids@[k] != id,
    {
        if ids[j] == id {
            return true;
        }
    }
    false
}

impl SceneManager {
    /// The stack of active scene ids, the current scene last.
    pub closed spec fn spec_stack(&self) -> Seq<u64> {
        self.stack@
    }

    /// The registered scene ids.
    pub closed spec fn spec_registered(&self) -> Seq<u64> {
        self.registered@
    }

    /// The invariant: at least one scene is active and every active scene
    /// is registered.
    pub closed spec fn wf(&self) -> bool {
        &&& self.stack@.len() >= 1
        &&& forall|j: int|
            0 <= j < self.stack@.len() ==> id_registered(self.registered@, #[trigger] self.stack@[j])
    }

    /// Builds a manager over `scene_ids` with `entry_point` as the starting
    /// scene, which the caller must then enter. Fails exactly when the
    /// entry point is not registered.
    pub fn new(scene_ids: Vec<u64>, entry_point: u64) -> (r: Result<SceneManager, RuntimeError>)
        ensures
            match r {
                Ok(m) => {
                    &&& id_registered(scene_ids@, entry_point)
                    &&& m.wf()
                    &&& m.spec_registered() == scene_ids@
                    &&& m.spec_stack() == seq![entry_point]
                },
                Err(_) => !id_registered(scene_ids@, entry_point),
            },
    {
        if !ids_contain(&scene_ids, entry_point) {
            return Err(
                RuntimeError::new(
                    "src/scene.rs",
                    0,
                    0,
                    String::from_str("The scene entry point is not registered."),
                ),
            );
        }
        let mut stack: Vec<u64> = Vec::new();
        stack.push(entry_point);
        proof {
            assert(stack@ =~= seq![entry_point]);
        }
        Ok(SceneManager { stack, registered: scene_ids })
    }

    /// The id of the current scene.
    pub fn current_scene(&self) -> (r: u64)
        requires
            self.wf(),
        ensures
            r == self.spec_stack().last(),
    {
        self.stack[self.stack.len() - 1]
    }

    /// Decides what this tick does from the request the current scene
    /// raised, and applies it to the stack.
    ///
    /// `Pop` exits the current scene and re-activates the one below it;
    /// popping the last scene is a fatal error. `Push` enters a new scene
    /// on top without exiting the current one. `Change` exits the current
    /// scene and replaces it. A push or change to an unregistered id is a
    /// fatal error and leaves the stack unchanged. The caller performs the
    /// exit before the enter, then runs update and draw on the new current
    /// scene.
    pub fn plan_frame(&mut self, request: Option<SceneRequest>) -> (r: Result<
        FramePlan,
        RuntimeError,
    >)
        requires
            old(self).wf(),
        ensures
            final(self).wf(),
            final(self).spec_registered() == old(self).spec_registered(),
            match request {
                None => {
                    &&& r == Ok::<FramePlan, RuntimeError>(
                        FramePlan {
                            exit_scene: None,
                            enter_scene: None,
                            current: old(self).spec_stack().last(),
                        },
                    )
                    &&& final(self).spec_stack() == old(self).spec_stack()
                },
                Some(SceneRequest::Pop) => if old(self).spec_stack().len() >= 2 {
                    &&& r == Ok::<FramePlan, RuntimeError>(
                        FramePlan {
                            exit_scene: Some(old(self).spec_stack().last()),
                            enter_scene: None,
                            current: old(self).spec_stack()[old(self).spec_stack().len() - 2],
                        },
                    )
                    &&& final(self).spec_stack() == old(self).spec_stack().drop_last()
                } else {
                    &&& r is Err
                    &&& final(self).spec_stack() == old(self).spec_stack()
                },
                Some(SceneRequest::Push { id }) => if id_registered(
                    old(self).spec_registered(),
                    id,
                ) {
                    &&& r == Ok::<FramePlan, RuntimeError>(
                        FramePlan { exit_scene: None, enter_scene: Some(id), current: id },
                    )
                    &&& final(self).spec_stack() == old(self).spec_stack().push(id)
                } else {
                    &&& r is Err
                    &&& final(self).spec_stack() == old(self).spec_stack()
                },
                Some(SceneRequest::Change { id }) => if id_registered(
                    old(self).spec_registered(),
                    id,
                ) {
                    &&& r == Ok::<FramePlan, RuntimeError>(
                        FramePlan {
                            exit_scene: Some(old(self).spec_stack().last()),
                            enter_scene: Some(id),
                            current: id,
                        },
                    )
                    &&& final(self).spec_stack() == old(self).spec_stack().drop_last().push(id)
                } else {
                    &&& r is Err
                    &&& final(self).spec_stack() == old(self).spec_stack()
                },
            },
    {
        let current = self.current_scene();
        match request {
            None => Ok(FramePlan { exit_scene: None, enter_scene: None, current }),
            Some(SceneRequest::Pop) => {
                if self.stack.len() >= 2 {
                    self.stack.pop();
                    let next = self.current_scene();
                    Ok(FramePlan { exit_scene: Some(current), enter_scene: None, current: next })
                } else {
                    Err(
                        RuntimeError::new(
                            "src/scene.rs",
                            0,
                            0,
                            String::from_str("Cannot pop the last scene."),
                        ),
                    )
                }
            },
            Some(SceneRequest::Push { id }) => {
                if ids_contain(&self.registered, id) {
                    self.stack.push(id);
                    Ok(FramePlan { exit_scene: None, enter_scene: Some(id), current: id })
                } else {
                    Err(
                        RuntimeError::new(
                            "src/scene.rs",
                            0,
                            0,
                            String::from_str("Scene is not registered."),
                        ),
                    )
                }
            },
            Some(SceneRequest::Change { id }) => {
                if ids_contain(&self.registered, id) {
                    self.stack.pop();
                    self.stack.push(id);
                    Ok(
                        FramePlan {
                            exit_scene: Some(current),
                            enter_scene: Some(id),
                            current: id,
                        },
                    )
                } else {
                    Err(
                        RuntimeError::new(
                            "src/scene.rs",
                            0,
                            0,
                            String::from_str("Scene is not registered."),
                        ),
                    )
                }
            },
        }
    }
}

} // verus!
