use feo_oop_engine::event::UserEvent;
use feo_oop_engine::registration::class::Class;
use feo_oop_engine::registration::id::IDSystem;
use feo_oop_engine::registration::relation::ParentWrapper;
use feo_oop_engine::scene::game_object::{GameObjectNode, NodeKind};
use feo_oop_engine::scene::Scene;
use feo_oop_engine::scripting::executor::{
    new_executor_and_spawner, reconcile, RunError, ScriptHost, SwapError, Task, TaskPoll,
};
use feo_oop_engine::scripting::swap::Swap;
use feo_oop_engine::scripting::{RoutineKind, Script};

type G = u32;

fn space() -> feo_math::utils::space::Space {
    feo_math::utils::space::Space::new(None, None, None)
}

fn leaf(sys: &mut IDSystem, name: &str, kind: NodeKind) -> GameObjectNode<G> {
    let id = sys.take();
    GameObjectNode::new(id, Some(name.to_string()), space(), true, None, kind)
}

fn scripted(sys: &mut IDSystem, name: &str, with_handler: bool) -> GameObjectNode<G> {
    let id = sys.take();
    GameObjectNode::new(
        id,
        Some(name.to_string()),
        space(),
        true,
        Some(Script::new(with_handler)),
        NodeKind::Group,
    )
}

#[test]
fn allocator_issues_then_reuses_freed_value() {
    let mut sys = IDSystem::new(0);
    let a = sys.take();
    let b = sys.take();
    let c = sys.take();
    assert_eq!(a.get_value(), 1);
    assert_eq!(b.get_value(), 2);
    assert_eq!(c.get_value(), 3);
    sys.free(b);
    let d = sys.take();
    assert_eq!(d.get_value(), 2);
}

#[test]
fn allocator_live_identifiers_are_distinct() {
    let mut sys = IDSystem::new(7);
    let a = sys.take();
    let b = sys.take();
    let c = sys.take();
    assert_ne!(a, b);
    assert_ne!(a, c);
    assert_ne!(b, c);
    assert_eq!(a.get_system(), 7);
}

#[test]
fn identifiers_of_different_allocators_never_compare_equal() {
    let mut s0 = IDSystem::new(0);
    let mut s1 = IDSystem::new(1);
    let a = s0.take();
    let b = s1.take();
    assert_eq!(a.get_value(), b.get_value());
    assert_ne!(a, b);
}

#[test]
fn identifier_ordering_within_one_allocator() {
    let mut sys = IDSystem::new(0);
    let a = sys.take();
    let b = sys.take();
    assert!(a.is_before(&b));
    assert!(!b.is_before(&a));
}

#[test]
fn default_allocator_starts_empty() {
    let mut sys = IDSystem::default();
    assert_eq!(sys.take().get_value(), 1);
}

#[test]
fn get_child_by_name_finds_the_named_child() {
    let mut sys = IDSystem::new(0);
    let mut root = leaf(&mut sys, "root", NodeKind::Group);
    let a = leaf(&mut sys, "A", NodeKind::Group);
    let a_id = a.get_id();
    let b = leaf(&mut sys, "B", NodeKind::Group);
    root.add_child(a);
    root.add_child(b);
    let found = root.get_child_by_name(&"A".to_string()).unwrap();
    assert_eq!(found.get_id(), a_id);
    match root.get_child_by_name(&"C".to_string()) {
        Err(msg) => assert_eq!(msg, "No child with that name was found."),
        Ok(_) => panic!("unexpected child"),
    }
}

#[test]
fn remove_and_replace_direct_children() {
    let mut sys = IDSystem::new(0);
    let mut root = leaf(&mut sys, "root", NodeKind::Group);
    let a = leaf(&mut sys, "A", NodeKind::Group);
    let a_id = a.get_id();
    root.add_child(a);
    let replacement = leaf(&mut sys, "A2", NodeKind::Group);
    let r2_id = replacement.get_id();
    root.replace_child(&a_id, replacement).unwrap();
    assert_eq!(root.get_children().len(), 1);
    assert_eq!(root.get_children()[0].get_id(), r2_id);
    let removed = root.remove_child(&r2_id).unwrap();
    assert_eq!(removed.get_id(), r2_id);
    assert!(root.get_children().is_empty());
    assert!(root.remove_child(&a_id).is_err());
}

#[test]
fn globals_round_trip_through_the_slot() {
    let mut sys = IDSystem::new(0);
    let mut plain = leaf(&mut sys, "plain", NodeKind::Group);
    assert_eq!(plain.get_globals().unwrap_err(), "No script found.");
    assert_eq!(plain.set_globals(5).unwrap_err(), "No script found.");
    let mut node = scripted(&mut sys, "s", false);
    assert_eq!(node.get_globals().unwrap_err(), "No globals found in script.");
    node.set_globals(42).unwrap();
    assert_eq!(node.get_globals().unwrap(), 42);
}

#[test]
fn deleted_leaf_is_gone_after_reconciliation() {
    let mut sys = IDSystem::new(0);
    let mut scene: Scene<G> = Scene::new(None);
    let mut parent = leaf(&mut sys, "parent", NodeKind::Group);
    let x = leaf(&mut sys, "X", NodeKind::Group);
    let x_id = x.get_id();
    parent.add_child(x);
    let parent_id = parent.get_id();
    scene.add_child(parent);
    assert!(scene.get_node(&x_id).is_some());
    reconcile(&mut scene, vec![Swap::Delete(x_id)]).unwrap();
    assert!(scene.get_node(&x_id).is_none());
    assert!(scene.get_node(&parent_id).unwrap().get_children().is_empty());
}

#[test]
fn deleting_the_main_camera_fails_closed() {
    let mut sys = IDSystem::new(0);
    let mut scene: Scene<G> = Scene::new(None);
    let cam = leaf(&mut sys, "cam", NodeKind::FpvCamera);
    let cam_id = cam.get_id();
    scene.add_child(cam);
    scene.set_main_camera(cam_id);
    assert!(scene.is_main_camera(&cam_id));
    let r = reconcile(&mut scene, vec![Swap::Delete(cam_id)]);
    assert_eq!(r.unwrap_err(), SwapError::DeleteMainCamera);
    assert!(scene.get_node(&cam_id).is_some());
    assert_eq!(scene.main_camera, Some(cam_id));
}

#[test]
fn replacing_the_main_camera_updates_the_slot() {
    let mut sys = IDSystem::new(0);
    let mut scene: Scene<G> = Scene::new(None);
    let cam = leaf(&mut sys, "cam", NodeKind::FpvCamera);
    let cam_id = cam.get_id();
    scene.add_child(cam);
    scene.set_main_camera(cam_id);
    let new_cam = leaf(&mut sys, "cam2", NodeKind::FpvCamera);
    let new_id = new_cam.get_id();
    reconcile(&mut scene, vec![Swap::SwapFull(cam_id, new_cam)]).unwrap();
    assert_eq!(scene.main_camera, Some(new_id));
    assert!(scene.is_main_camera(&new_id));
    assert!(!scene.is_main_camera(&cam_id));
    assert!(scene.get_node(&cam_id).is_none());
    assert!(scene.get_node(&new_id).is_some());
}

#[test]
fn main_camera_replacement_must_be_a_camera() {
    let mut sys = IDSystem::new(0);
    let mut scene: Scene<G> = Scene::new(None);
    let cam = leaf(&mut sys, "cam", NodeKind::FpvCamera);
    let cam_id = cam.get_id();
    scene.add_child(cam);
    scene.set_main_camera(cam_id);
    let not_cam = leaf(&mut sys, "group", NodeKind::Group);
    let r = reconcile(&mut scene, vec![Swap::SwapFull(cam_id, not_cam)]);
    assert_eq!(r.unwrap_err(), SwapError::ReplacementNotCamera);
    assert_eq!(scene.main_camera, Some(cam_id));
}

#[test]
fn replace_keep_children_reparents_the_children() {
    let mut sys = IDSystem::new(0);
    let mut scene: Scene<G> = Scene::new(None);
    let mut a = leaf(&mut sys, "A", NodeKind::Group);
    let c1 = leaf(&mut sys, "c1", NodeKind::Group);
    let c2 = leaf(&mut sys, "c2", NodeKind::Group);
    let (a_id, c1_id, c2_id) = (a.get_id(), c1.get_id(), c2.get_id());
    a.add_child(c1);
    a.add_child(c2);
    scene.add_child(a);
    let b = leaf(&mut sys, "B", NodeKind::Group);
    let b_id = b.get_id();
    reconcile(&mut scene, vec![Swap::SwapParent(a_id, b)]).unwrap();
    assert!(scene.get_node(&a_id).is_none());
    let new_parent = scene.get_node(&b_id).unwrap();
    assert_eq!(new_parent.get_children().len(), 2);
    assert_eq!(new_parent.get_children()[0].get_id(), c1_id);
    assert_eq!(new_parent.get_children()[1].get_id(), c2_id);
}

#[test]
fn replace_subtree_drops_the_children() {
    let mut sys = IDSystem::new(0);
    let mut scene: Scene<G> = Scene::new(None);
    let mut a = leaf(&mut sys, "A", NodeKind::Group);
    let c1 = leaf(&mut sys, "c1", NodeKind::Group);
    let (a_id, c1_id) = (a.get_id(), c1.get_id());
    a.add_child(c1);
    scene.add_child(a);
    let b = leaf(&mut sys, "B", NodeKind::Group);
    let b_id = b.get_id();
    reconcile(&mut scene, vec![Swap::SwapFull(a_id, b)]).unwrap();
    assert!(scene.get_node(&a_id).is_none());
    assert!(scene.get_node(&c1_id).is_none());
    assert!(scene.get_node(&b_id).unwrap().get_children().is_empty());
}

#[test]
fn parent_mutation_is_applied_before_the_childs() {
    // The delete of the grandchild arrives first, but the replace of its
    // parent has the smaller preorder rank and goes first, so the
    // grandchild is re-parented onto the replacement and then deleted.
    let mut sys = IDSystem::new(0);
    let mut scene: Scene<G> = Scene::new(None);
    let mut a = leaf(&mut sys, "A", NodeKind::Group);
    let a1 = leaf(&mut sys, "A1", NodeKind::Group);
    let (a_id, a1_id) = (a.get_id(), a1.get_id());
    a.add_child(a1);
    scene.add_child(a);
    let a2 = leaf(&mut sys, "A2", NodeKind::Group);
    let a2_id = a2.get_id();
    reconcile(
        &mut scene,
        vec![Swap::Delete(a1_id), Swap::SwapParent(a_id, a2)],
    )
    .unwrap();
    assert!(scene.get_node(&a1_id).is_none());
    assert!(scene.get_node(&a2_id).unwrap().get_children().is_empty());
}

#[test]
fn dropping_a_subtree_invalidates_requests_into_it() {
    // Replacing the parent's whole subtree goes first; the delete that
    // targeted a node inside it then finds its target gone, which is
    // fatal for the pass.
    let mut sys = IDSystem::new(0);
    let mut scene: Scene<G> = Scene::new(None);
    let mut a = leaf(&mut sys, "A", NodeKind::Group);
    let a1 = leaf(&mut sys, "A1", NodeKind::Group);
    let (a_id, a1_id) = (a.get_id(), a1.get_id());
    a.add_child(a1);
    scene.add_child(a);
    let b = leaf(&mut sys, "B", NodeKind::Group);
    let r = reconcile(
        &mut scene,
        vec![Swap::Delete(a1_id), Swap::SwapFull(a_id, b)],
    );
    assert_eq!(r.unwrap_err(), SwapError::TargetNotFound);
}

#[test]
fn reconciliation_rejects_requests_without_a_target() {
    let mut scene: Scene<G> = Scene::new(None);
    let r = reconcile(&mut scene, vec![Swap::NoSwap]);
    assert_eq!(r.unwrap_err(), SwapError::MissingTarget);
}

#[test]
fn reconciliation_rejects_unknown_targets() {
    let mut sys = IDSystem::new(0);
    let mut scene: Scene<G> = Scene::new(None);
    let node = leaf(&mut sys, "n", NodeKind::Group);
    let stranger = sys.take();
    scene.add_child(node);
    let r = reconcile(&mut scene, vec![Swap::Delete(stranger)]);
    assert_eq!(r.unwrap_err(), SwapError::TargetNotFound);
}

#[test]
fn deleting_an_ancestor_of_the_camera_fails_closed() {
    let mut sys = IDSystem::new(0);
    let mut scene: Scene<G> = Scene::new(None);
    let mut holder = leaf(&mut sys, "holder", NodeKind::Group);
    let cam = leaf(&mut sys, "cam", NodeKind::FpvCamera);
    let (holder_id, cam_id) = (holder.get_id(), cam.get_id());
    holder.add_child(cam);
    scene.add_child(holder);
    scene.set_main_camera(cam_id);
    let r = reconcile(&mut scene, vec![Swap::Delete(holder_id)]);
    assert_eq!(r.unwrap_err(), SwapError::MainCameraInDroppedSubtree);
    assert!(scene.get_node(&cam_id).is_some());
}

#[test]
fn duplicate_identifiers_are_rejected() {
    let mut sys = IDSystem::new(0);
    let mut scene: Scene<G> = Scene::new(None);
    let a = leaf(&mut sys, "A", NodeKind::Group);
    let b = leaf(&mut sys, "B", NodeKind::Group);
    let (a_id, b_id) = (a.get_id(), b.get_id());
    scene.add_child(a);
    scene.add_child(b);
    // A replacement reusing an identifier that is still in the tree.
    let clone_of_b = GameObjectNode::new(
        b_id,
        Some("B-again".to_string()),
        space(),
        true,
        None,
        NodeKind::Group,
    );
    let r = reconcile(&mut scene, vec![Swap::SwapParent(a_id, clone_of_b)]);
    assert_eq!(r.unwrap_err(), SwapError::DuplicateIdentifier);
}

#[test]
fn replace_keep_children_merges_after_the_replacements_own() {
    // A replacement that already owns children keeps them first; the
    // old node's children are appended after them, in order.
    let mut sys = IDSystem::new(0);
    let mut scene: Scene<G> = Scene::new(None);
    let mut a = leaf(&mut sys, "A", NodeKind::Group);
    let kept = leaf(&mut sys, "kept", NodeKind::Group);
    let (a_id, kept_id) = (a.get_id(), kept.get_id());
    a.add_child(kept);
    scene.add_child(a);
    let mut b = leaf(&mut sys, "B", NodeKind::Group);
    let own = leaf(&mut sys, "own", NodeKind::Group);
    let (b_id, own_id) = (b.get_id(), own.get_id());
    b.add_child(own);
    reconcile(&mut scene, vec![Swap::SwapParent(a_id, b)]).unwrap();
    assert!(scene.get_node(&a_id).is_none());
    let merged = scene.get_node(&b_id).unwrap();
    assert_eq!(merged.get_children().len(), 2);
    assert_eq!(merged.get_children()[0].get_id(), own_id);
    assert_eq!(merged.get_children()[1].get_id(), kept_id);
}

#[test]
fn swap_get_id_names_its_target() {
    let mut sys = IDSystem::new(0);
    let id = sys.take();
    let swap: Swap<G> = Swap::Delete(id);
    assert_eq!(*swap.get_id().unwrap(), id);
    let none: Swap<G> = Swap::NoSwap;
    assert_eq!(none.get_id().unwrap_err(), "None type has no ID");
}

#[test]
fn subspace_queries_resolve_only_nodes_in_the_tree() {
    let mut sys = IDSystem::new(0);
    let mut scene: Scene<G> = Scene::new(None);
    let mut parent = leaf(&mut sys, "parent", NodeKind::Group);
    let child = leaf(&mut sys, "child", NodeKind::Group);
    let child_id = child.get_id();
    parent.add_child(child);
    scene.add_child(parent);
    assert!(scene.get_subspace(&child_id).is_ok());
    assert!(scene.get_inversed_subspace(&child_id).is_ok());
    let stranger = sys.take();
    assert!(scene.get_subspace(&stranger).is_err());
    assert!(scene.get_inversed_subspace(&stranger).is_err());
}

struct RecordingHost {
    seen: Vec<(usize, RoutineKind)>,
    pending_once_for: Option<usize>,
    produce: Vec<(usize, Swap<G>)>,
}

impl ScriptHost<G> for RecordingHost {
    fn poll_task(&mut self, _scene: &mut Scene<G>, task: &Task) -> TaskPoll<G> {
        let value = task.invocation.target.get_value();
        self.seen.push((value, task.invocation.routine));
        if self.pending_once_for == Some(value) {
            self.pending_once_for = None;
            return TaskPoll::Pending;
        }
        if let Some(pos) = self.produce.iter().position(|(v, _)| *v == value) {
            let (_, swap) = self.produce.remove(pos);
            return TaskPoll::Ready(swap);
        }
        TaskPoll::Ready(Swap::NoSwap)
    }
}

#[test]
fn dispatch_schedules_start_then_frame() {
    let mut sys = IDSystem::new(0);
    let mut scene: Scene<G> = Scene::new(None);
    let node = scripted(&mut sys, "s", false);
    let node_id = node.get_id();
    scene.add_child(node);
    let (mut executor, mut spawner) = new_executor_and_spawner();
    let mut host = RecordingHost { seen: vec![], pending_once_for: None, produce: vec![] };

    scene.spawn_script_cores(&mut spawner);
    assert_eq!(spawner.tasks.len(), 1);
    executor.run(&mut spawner, &mut scene, &mut host, 100).unwrap();

    scene.spawn_script_cores(&mut spawner);
    executor.run(&mut spawner, &mut scene, &mut host, 100).unwrap();

    assert_eq!(
        host.seen,
        vec![
            (node_id.get_value(), RoutineKind::Start),
            (node_id.get_value(), RoutineKind::Frame)
        ]
    );
}

#[test]
fn handlers_run_only_for_started_scripts_with_handlers() {
    let mut sys = IDSystem::new(0);
    let mut scene: Scene<G> = Scene::new(None);
    let with_handler = scripted(&mut sys, "h", true);
    let without_handler = scripted(&mut sys, "n", false);
    let h_id = with_handler.get_id();
    scene.add_child(with_handler);
    scene.add_child(without_handler);
    let (mut executor, mut spawner) = new_executor_and_spawner();
    let mut host = RecordingHost { seen: vec![], pending_once_for: None, produce: vec![] };

    // Nothing has started yet: no handler runs.
    scene.spawn_script_handlers(&mut spawner, 0);
    assert_eq!(spawner.tasks.len(), 0);

    scene.spawn_script_cores(&mut spawner);
    executor.run(&mut spawner, &mut scene, &mut host, 100).unwrap();
    host.seen.clear();

    scene.spawn_script_handlers(&mut spawner, 0);
    assert_eq!(spawner.tasks.len(), 1);
    executor.run(&mut spawner, &mut scene, &mut host, 100).unwrap();
    assert_eq!(host.seen, vec![(h_id.get_value(), RoutineKind::EventHandler(0))]);
}

#[test]
fn run_drains_every_task_before_returning() {
    let mut sys = IDSystem::new(0);
    let mut scene: Scene<G> = Scene::new(None);
    let first = scripted(&mut sys, "first", false);
    let second = scripted(&mut sys, "second", false);
    let first_value = first.get_id().get_value();
    scene.add_child(first);
    scene.add_child(second);
    let (mut executor, mut spawner) = new_executor_and_spawner();
    let mut host =
        RecordingHost { seen: vec![], pending_once_for: Some(first_value), produce: vec![] };

    scene.spawn_script_cores(&mut spawner);
    executor.run(&mut spawner, &mut scene, &mut host, 100).unwrap();

    // The pending task was re-admitted and polled again after the rest;
    // the pass did not end until it completed.
    assert_eq!(host.seen.len(), 3);
    assert_eq!(host.seen[0].0, first_value);
    assert_eq!(host.seen[2].0, first_value);
    assert_eq!(spawner.tasks.len(), 0);
    assert_eq!(executor.ready.len(), 0);
}

#[test]
fn run_reports_a_stalled_pass() {
    let mut sys = IDSystem::new(0);
    let mut scene: Scene<G> = Scene::new(None);
    let node = scripted(&mut sys, "s", false);
    scene.add_child(node);
    let (mut executor, mut spawner) = new_executor_and_spawner();

    struct AlwaysPending;
    impl ScriptHost<G> for AlwaysPending {
        fn poll_task(&mut self, _scene: &mut Scene<G>, _task: &Task) -> TaskPoll<G> {
            TaskPoll::Pending
        }
    }
    let mut host = AlwaysPending;
    scene.spawn_script_cores(&mut spawner);
    let r = executor.run(&mut spawner, &mut scene, &mut host, 5);
    assert_eq!(r.unwrap_err(), RunError::Stalled);
}

#[test]
fn a_completed_script_mutation_is_applied_at_the_barrier() {
    let mut sys = IDSystem::new(0);
    let mut scene: Scene<G> = Scene::new(None);
    let mut holder = scripted(&mut sys, "holder", false);
    let doomed = leaf(&mut sys, "doomed", NodeKind::Group);
    let doomed_id = doomed.get_id();
    holder.add_child(doomed);
    let holder_value = holder.get_id().get_value();
    scene.add_child(holder);
    let (mut executor, mut spawner) = new_executor_and_spawner();
    let mut host = RecordingHost {
        seen: vec![],
        pending_once_for: None,
        produce: vec![(holder_value, Swap::Delete(doomed_id))],
    };
    scene.spawn_script_cores(&mut spawner);
    executor.run(&mut spawner, &mut scene, &mut host, 100).unwrap();
    assert!(scene.get_node(&doomed_id).is_none());
}

#[test]
fn swap_parent_on_the_main_camera_moves_the_slot() {
    let mut sys = IDSystem::new(0);
    let mut scene: Scene<G> = Scene::new(None);
    let mut cam = leaf(&mut sys, "cam", NodeKind::FpvCamera);
    let rig = leaf(&mut sys, "rig", NodeKind::Group);
    let (cam_id, rig_id) = (cam.get_id(), rig.get_id());
    cam.add_child(rig);
    scene.add_child(cam);
    scene.set_main_camera(cam_id);
    let new_cam = leaf(&mut sys, "cam2", NodeKind::FpvCamera);
    let new_id = new_cam.get_id();
    reconcile(&mut scene, vec![Swap::SwapParent(cam_id, new_cam)]).unwrap();
    assert_eq!(scene.main_camera, Some(new_id));
    // The old camera's child now hangs under the replacement.
    assert_eq!(
        scene.get_node(&new_id).unwrap().get_children()[0].get_id(),
        rig_id
    );
}

#[test]
fn reconciling_nothing_changes_nothing() {
    let mut sys = IDSystem::new(0);
    let mut scene: Scene<G> = Scene::new(None);
    let node = leaf(&mut sys, "n", NodeKind::Group);
    let node_id = node.get_id();
    scene.add_child(node);
    reconcile(&mut scene, vec![]).unwrap();
    assert!(scene.get_node(&node_id).is_some());
}

#[test]
fn get_parent_walks_one_step_up() {
    let mut sys = IDSystem::new(0);
    let mut scene: Scene<G> = Scene::new(None);
    let mut parent = leaf(&mut sys, "parent", NodeKind::Group);
    let child = leaf(&mut sys, "child", NodeKind::Group);
    let (parent_id, child_id) = (parent.get_id(), child.get_id());
    parent.add_child(child);
    scene.add_child(parent);
    assert_eq!(scene.get_parent(&parent_id).unwrap(), ParentWrapper::Scene);
    assert_eq!(
        scene.get_parent(&child_id).unwrap(),
        ParentWrapper::GameObject(parent_id)
    );
    let stranger = sys.take();
    assert!(scene.get_parent(&stranger).is_err());
}

#[test]
fn node_level_dispatch_matches_the_scene_walk() {
    let mut sys = IDSystem::new(0);
    let mut root = scripted(&mut sys, "root", true);
    let nested = scripted(&mut sys, "nested", false);
    let (root_id, nested_id) = (root.get_id(), nested.get_id());
    root.add_child(nested);
    let (_executor, mut spawner) = new_executor_and_spawner();
    root.spawn_script_core(&mut spawner);
    assert_eq!(spawner.tasks.len(), 2);
    assert_eq!(spawner.tasks[0].invocation.target, root_id);
    assert_eq!(spawner.tasks[0].invocation.routine, RoutineKind::Start);
    assert_eq!(spawner.tasks[1].invocation.target, nested_id);
    // Both scripts are marked started by the walk.
    spawner.tasks.clear();
    root.spawn_script_handler(&mut spawner, 0);
    assert_eq!(spawner.tasks.len(), 1);
    assert_eq!(spawner.tasks[0].invocation.target, root_id);
    assert_eq!(spawner.tasks[0].invocation.routine, RoutineKind::EventHandler(0));
}

fn count_slots(children: &[GameObjectNode<G>], value: usize) -> usize {
    let mut n = 0;
    for c in children {
        if c.get_id().get_value() == value {
            n += 1;
        }
        n += count_slots(c.get_children(), value);
    }
    n
}

#[test]
fn every_node_sits_in_exactly_one_child_list_after_a_pass() {
    let mut sys = IDSystem::new(0);
    let mut scene: Scene<G> = Scene::new(None);
    let mut a = leaf(&mut sys, "A", NodeKind::Group);
    let c1 = leaf(&mut sys, "c1", NodeKind::Group);
    let c2 = leaf(&mut sys, "c2", NodeKind::Group);
    let (a_id, c1_v, c2_v) = (a.get_id(), c1.get_id().get_value(), c2.get_id().get_value());
    a.add_child(c1);
    a.add_child(c2);
    scene.add_child(a);
    let b = leaf(&mut sys, "B", NodeKind::Group);
    let b_v = b.get_id().get_value();
    reconcile(&mut scene, vec![Swap::SwapParent(a_id, b)]).unwrap();
    for v in [b_v, c1_v, c2_v] {
        assert_eq!(count_slots(&scene.children, v), 1);
    }
    assert_eq!(count_slots(&scene.children, a_id.get_value()), 0);
}

#[test]
fn unnamed_nodes_get_the_default_group_name() {
    let mut sys = IDSystem::new(0);
    let first = sys.take();
    let node: GameObjectNode<G> = GameObjectNode::new(first, None, space(), true, None, NodeKind::Group);
    assert_eq!(node.name, "group_1");
    let _ = sys.take();
    let _ = sys.take();
    let later = sys.take();
    let node2: GameObjectNode<G> =
        GameObjectNode::new(later, None, space(), true, None, NodeKind::Group);
    assert_eq!(node2.name, "group_4");
}

#[test]
fn class_lookup_is_not_implemented_yet() {
    Class::add_class();
    assert!(Class::get_class("anything").is_err());
    let c = Class::get_class("x").err().unwrap();
    let _ = c;
}

#[test]
fn parent_wrapper_distinguishes_scene_and_node_parents() {
    let mut sys = IDSystem::new(0);
    let id = sys.take();
    let a = ParentWrapper::GameObject(id);
    let b = ParentWrapper::Scene;
    assert_ne!(a, b);
    assert_eq!(a, ParentWrapper::GameObject(id));
}

#[test]
fn collision_events_carry_both_identifiers() {
    let mut sys = IDSystem::new(0);
    let a = sys.take();
    let b = sys.take();
    let e: UserEvent<u32> = UserEvent::Collision(a, b);
    match e {
        UserEvent::Collision(x, y) => {
            assert_eq!(x, a);
            assert_eq!(y, b);
        },
        _ => panic!("wrong variant"),
    }
}
