use fluster_core::ids::{ContainerId, LibraryId};
use fluster_core::resources::{
    ContainerCreationQueue, ContainerMapping, ContainerUpdateQueue, FrameTime, Library,
    QuadTreeLayer, SceneGraph,
};
use fluster_core::tween::TimeSpan;

#[test]
fn mapping_reads_back_what_was_added() {
    let mut mapping = ContainerMapping::new();
    mapping.add_container(ContainerId(10), 100);
    mapping.add_container(ContainerId(20), 200);
    assert_eq!(mapping.get_entity(&ContainerId(10)), Some(&100));
    assert_eq!(mapping.get_container(&200), Some(&ContainerId(20)));
    assert!(mapping.contains_container(&ContainerId(20)));
    assert!(mapping.contains_entity(&100));
    mapping.remove_container(&ContainerId(10));
    assert!(!mapping.contains_container(&ContainerId(10)));
    assert!(!mapping.contains_entity(&100));
    mapping.remove_entity(&200);
    assert!(!mapping.contains_container(&ContainerId(20)));
    assert_eq!(mapping.get_entity(&ContainerId(20)), None);
}

#[test]
fn library_reads_back_what_was_added() {
    let mut library: Library<String, Vec<u8>> = Library::new();
    library.add_shape(LibraryId(1), String::from("square"));
    library.add_texture(LibraryId(2), vec![1, 2, 3]);
    assert_eq!(*library.get_shape(&LibraryId(1)).unwrap(), String::from("square"));
    assert_eq!(*library.get_texture(&LibraryId(2)).unwrap(), vec![1, 2, 3]);
    assert!(library.contains_shape(&LibraryId(1)));
    assert!(!library.contains_shape(&LibraryId(2)));
    assert!(library.contains_texture(&LibraryId(2)));
    library.remove_shape(&LibraryId(1));
    library.remove_texture(&LibraryId(2));
    assert!(library.get_shape(&LibraryId(1)).is_none());
    assert!(!library.contains_texture(&LibraryId(2)));
}

#[test]
fn queues_are_first_in_first_out() {
    let mut creations: ContainerCreationQueue<&str> = ContainerCreationQueue::new();
    creations.enqueue("a");
    creations.enqueue("b");
    assert_eq!(creations.dequeue(), Some("a"));
    creations.enqueue("c");
    assert_eq!(creations.dequeue(), Some("b"));
    assert_eq!(creations.dequeue(), Some("c"));
    assert_eq!(creations.dequeue(), None);
    let mut updates: ContainerUpdateQueue<u8> = ContainerUpdateQueue::default();
    updates.enqueue(7);
    assert_eq!(updates.dequeue(), Some(7));
    assert_eq!(updates.dequeue(), None);
}

#[test]
fn scene_graph_adds_and_reparents() {
    let mut graph = SceneGraph::new(0);
    graph.add_entity(&0, &1);
    graph.add_entity(&0, &2);
    graph.add_entity(&1, &3);
    assert_eq!(graph.get_children(&0), Some(&vec![1, 2]));
    assert_eq!(graph.get_parent(&3), Some(&1));
    graph.reparent(&2, 3);
    assert_eq!(graph.get_children(&1), Some(&vec![]));
    assert_eq!(graph.get_children(&2), Some(&vec![3]));
    assert_eq!(graph.get_parent(&3), Some(&2));
    assert_eq!(*graph.root(), 0);
    assert_eq!(graph.get_parent(&0), Some(&0));
}

#[test]
fn removing_an_entity_hands_its_children_to_its_parent() {
    let mut graph = SceneGraph::new(0);
    graph.add_entity(&0, &1);
    graph.add_entity(&0, &2);
    graph.add_entity(&1, &3);
    graph.add_entity(&1, &4);
    graph.remove_entity(&1);
    assert_eq!(graph.get_children(&0), Some(&vec![2, 3, 4]));
    assert_eq!(graph.get_parent(&3), Some(&0));
    assert_eq!(graph.get_parent(&1), None);
    assert_eq!(graph.get_children(&1), None);
}

#[test]
fn removing_with_children_removes_the_subtree_breadth_first() {
    let mut graph = SceneGraph::new(0);
    graph.add_entity(&0, &1);
    graph.add_entity(&1, &2);
    graph.add_entity(&1, &3);
    graph.add_entity(&2, &4);
    graph.add_entity(&0, &5);
    let removed = graph.remove_entity_and_children(&1);
    assert_eq!(removed, vec![1, 2, 3, 4]);
    assert_eq!(graph.get_parent(&4), None);
    assert_eq!(graph.get_children(&2), None);
    assert_eq!(graph.get_parent(&5), Some(&0));
    // The parent's list still names the removed entity, as it always did.
    assert_eq!(graph.get_children(&0), Some(&vec![1, 5]));
}

#[test]
fn plain_resources_hold_their_values() {
    assert_eq!(QuadTreeLayer::new(4), QuadTreeLayer(4));
    let frame_time = FrameTime::new(TimeSpan::from_millis(16), 1);
    assert_eq!(frame_time.delta_frame, 1);
    assert_eq!(frame_time.delta_time.as_nanos(), 16_000_000);
}

#[test]
fn ancestors_climb_to_below_the_root() {
    let mut graph = SceneGraph::new(0);
    graph.add_entity(&0, &1);
    graph.add_entity(&1, &2);
    graph.add_entity(&2, &3);
    assert_eq!(graph.ancestors(&3), vec![2, 1]);
    assert_eq!(graph.ancestors(&1), Vec::<u64>::new());
    assert_eq!(graph.ancestors(&0), Vec::<u64>::new());
    assert_eq!(graph.ancestors(&99), Vec::<u64>::new());
}

#[test]
fn moving_and_removing_keep_each_child_listed_once() {
    let mut graph = SceneGraph::new(0);
    graph.add_entity(&0, &1);
    graph.add_entity(&0, &2);
    graph.add_entity(&1, &3);
    graph.reparent(&2, 3);
    assert_eq!(graph.get_children(&1), Some(&vec![]));
    assert_eq!(graph.get_children(&2), Some(&vec![3]));
    graph.reparent(&2, 3);
    assert_eq!(graph.get_children(&2), Some(&vec![3]));
    assert_eq!(graph.get_parent(&3), Some(&2));
    graph.remove_entity(&2);
    assert_eq!(graph.get_children(&0), Some(&vec![1, 3]));
    assert_eq!(graph.get_parent(&3), Some(&0));
}

#[test]
fn removal_order_is_breadth_first_across_levels() {
    let mut graph = SceneGraph::new(0);
    graph.add_entity(&0, &1);
    graph.add_entity(&1, &2);
    graph.add_entity(&2, &3);
    graph.add_entity(&1, &4);
    graph.add_entity(&4, &5);
    graph.add_entity(&2, &6);
    assert_eq!(graph.remove_entity_and_children(&1), vec![1, 2, 4, 3, 6, 5]);
}
