use fluster_core::components::{Display, DisplayKind, Layer, Order};
use fluster_core::engine::{
    depth_key_of, depth_sort, draw_order, remove_container, remove_container_and_children,
};
use fluster_core::ids::{ContainerId, LibraryId, UUID_V4_BITS, UUID_VERSION_VARIANT_MASK};
use fluster_core::resources::{ContainerMapping, FrameTime, Library, QuadTreeLayer, SceneGraph};
use fluster_core::systems::{
    ApplyOrderTweens, ContainerCreation, ContainerError, ContainerUpdate, UpdateTweens,
};
use std::collections::HashMap;
use fluster_core::tween::{Easing, PropertyTween, TimeSpan, TweenDuration, TweenElapsed};
use fluster_core::types::{ColorSpace, F32x2Def, LineCapDef};

#[test]
fn containers_are_created_under_existing_parents_only() {
    let mut mapping = ContainerMapping::new();
    let mut graph = SceneGraph::new(0);
    mapping.add_container(ContainerId(1), 0);
    let parent = ContainerCreation::parent_entity(&mapping, &ContainerId(2), &ContainerId(1));
    assert_eq!(parent, Ok(0));
    ContainerCreation::register(&mut mapping, &mut graph, ContainerId(2), 0, 5);
    assert_eq!(mapping.get_entity(&ContainerId(2)), Some(&5));
    assert_eq!(graph.get_children(&0), Some(&vec![5]));
    assert_eq!(graph.get_parent(&5), Some(&0));
    assert_eq!(
        ContainerCreation::parent_entity(&mapping, &ContainerId(2), &ContainerId(1)),
        Err(ContainerError::AlreadyExists(ContainerId(2)))
    );
    assert_eq!(
        ContainerCreation::parent_entity(&mapping, &ContainerId(3), &ContainerId(9)),
        Err(ContainerError::UnknownContainer(ContainerId(9)))
    );
}

#[test]
fn containers_move_to_new_parents() {
    let mut mapping = ContainerMapping::new();
    let mut graph = SceneGraph::new(0);
    mapping.add_container(ContainerId(1), 0);
    ContainerCreation::register(&mut mapping, &mut graph, ContainerId(2), 0, 5);
    ContainerCreation::register(&mut mapping, &mut graph, ContainerId(3), 0, 6);
    let entity = ContainerUpdate::target(&mapping, &ContainerId(3)).unwrap();
    assert_eq!(entity, 6);
    assert_eq!(ContainerUpdate::reparent(&mapping, &mut graph, entity, &ContainerId(2)), Ok(()));
    assert_eq!(graph.get_children(&0), Some(&vec![5]));
    assert_eq!(graph.get_children(&5), Some(&vec![6]));
    assert_eq!(
        ContainerUpdate::reparent(&mapping, &mut graph, entity, &ContainerId(8)),
        Err(ContainerError::UnknownContainer(ContainerId(8)))
    );
    assert_eq!(graph.get_parent(&6), Some(&5));
    assert_eq!(
        ContainerUpdate::target(&mapping, &ContainerId(4)),
        Err(ContainerError::UnknownContainer(ContainerId(4)))
    );
}

#[test]
fn layers_need_bounds() {
    let mut layers: Option<Layer> = None;
    ContainerUpdate::add_to_layer(&mut layers, false, QuadTreeLayer(3));
    assert!(layers.is_none());
    ContainerUpdate::add_to_layer(&mut layers, true, QuadTreeLayer(3));
    ContainerUpdate::add_to_layer(&mut layers, true, QuadTreeLayer(3));
    assert!(layers.as_ref().unwrap().contains(&QuadTreeLayer(3)));
    assert!(ContainerUpdate::remove_from_layer(&mut layers, &QuadTreeLayer(3)));
    assert!(!ContainerUpdate::remove_from_layer(&mut layers, &QuadTreeLayer(3)));
    assert!(!layers.as_ref().unwrap().contains(&QuadTreeLayer(3)));
    let mut none: Option<Layer> = None;
    assert!(!ContainerUpdate::remove_from_layer(&mut none, &QuadTreeLayer(3)));
}

#[test]
fn layer_components_hold_each_layer_once() {
    assert!(Layer::from_layers(&vec![]).is_none());
    let layer = Layer::from_layers(&vec![QuadTreeLayer(1), QuadTreeLayer(2), QuadTreeLayer(1)])
        .unwrap();
    assert!(layer.contains(&QuadTreeLayer(1)));
    assert!(layer.contains(&QuadTreeLayer(2)));
    assert!(!layer.contains(&QuadTreeLayer(3)));
    let mut layer = Layer::new();
    layer.add(QuadTreeLayer(9));
    assert!(layer.remove(&QuadTreeLayer(9)));
    assert!(!layer.remove(&QuadTreeLayer(9)));
}

#[test]
fn tweens_start_from_the_component_or_the_library() {
    let from_component = ContainerUpdate::tween_start(Some(1), Some(2)).unwrap();
    assert_eq!((from_component.value, from_component.store), (1, false));
    let from_library = ContainerUpdate::tween_start(None, Some(2)).unwrap();
    assert_eq!((from_library.value, from_library.store), (2, true));
    assert!(ContainerUpdate::tween_start::<u8>(None, None).is_none());
}

#[test]
fn order_tweens_agree_on_the_largest_order() {
    assert_eq!(ApplyOrderTweens::combine(&vec![]), None);
    assert_eq!(ApplyOrderTweens::combine(&vec![-3]), Some(-3));
    assert_eq!(ApplyOrderTweens::combine(&vec![2, -7, 5, 1]), Some(5));
    assert_eq!(Order::default(), Order(0));
}

#[test]
fn displays_prefer_shapes_over_textures() {
    let mut library: Library<&str, u8> = Library::default();
    library.add_shape(LibraryId(1), "shape");
    library.add_texture(LibraryId(1), 1);
    library.add_texture(LibraryId(2), 2);
    assert_eq!(
        Display::for_item(&library, &LibraryId(1)),
        Some(Display(LibraryId(1), DisplayKind::Vector))
    );
    assert_eq!(
        Display::for_item(&library, &LibraryId(2)),
        Some(Display(LibraryId(2), DisplayKind::Raster))
    );
    assert_eq!(Display::for_item(&library, &LibraryId(3)), None);
}

#[test]
fn frame_tweens_run_out_and_are_dropped() {
    let mut tweens = vec![
        PropertyTween::new('a', TweenDuration::new_frame(1), Easing::Linear),
        PropertyTween::new('b', TweenDuration::new_frame(3), Easing::QuadraticIn),
        PropertyTween::new('c', TweenDuration::Time(TimeSpan::from_millis(20)), Easing::Immediate),
    ];
    let frame_time = FrameTime::new(TimeSpan::from_millis(16), 1);
    UpdateTweens::run(&mut tweens, &frame_time);
    assert_eq!(tweens.len(), 2);
    assert_eq!(*tweens[0].tween_data(), 'b');
    assert_eq!(tweens[0].elapsed(), TweenElapsed::Frame(1, 3));
    assert_eq!(*tweens[1].tween_data(), 'c');
    UpdateTweens::run(&mut tweens, &frame_time);
    assert_eq!(tweens.len(), 1);
    assert_eq!(*tweens[0].tween_data(), 'b');
    assert_eq!(tweens[0].easing(), Easing::QuadraticIn);
    UpdateTweens::run(&mut tweens, &frame_time);
    assert!(tweens.is_empty());
}

#[test]
fn a_complete_tween_stays_complete() {
    let mut tween = PropertyTween::new((), TweenDuration::new_frame(2), Easing::Linear);
    assert!(!tween.is_complete());
    tween.update(2, TimeSpan::from_millis(0));
    assert!(tween.is_complete());
    tween.update(5, TimeSpan::from_millis(0));
    assert!(tween.is_complete());
    let mut elapsed = TweenElapsed::start(TweenDuration::Time(TimeSpan::from_secs_nanos(1, 0)));
    assert!(!elapsed.is_complete());
    elapsed.update(0, TimeSpan::from_secs_nanos(0, 999_999_999));
    assert!(!elapsed.is_complete());
    elapsed.update(0, TimeSpan::from_secs_nanos(0, 1));
    assert!(elapsed.is_complete());
}

#[test]
fn time_spans_add_and_split() {
    let span = TimeSpan::from_secs_nanos(2, 1_500_000_000);
    assert_eq!(span.as_secs(), 3);
    assert_eq!(span.subsec_nanos(), 500_000_000);
    assert_eq!(span.as_nanos(), 3_500_000_000);
    let sum = span.checked_add(&TimeSpan::from_millis(500)).unwrap();
    assert_eq!(sum.as_nanos(), 4_000_000_000);
    assert!(sum.at_least(&span));
    assert!(!span.at_least(&sum));
}

#[test]
fn lanes_pack_into_a_u64() {
    let packed = F32x2Def::from_lanes(1.5f32.to_bits(), (-2.0f32).to_bits());
    assert_eq!(packed.0, (1.5f32.to_bits() as u64) | (((-2.0f32).to_bits() as u64) << 32));
    let (x, y) = packed.lanes();
    assert_eq!(f32::from_bits(x), 1.5);
    assert_eq!(f32::from_bits(y), -2.0);
    assert_eq!(F32x2Def(0x0000_0002_0000_0001).lanes(), (1, 2));
}

#[test]
fn plain_value_types_compare() {
    assert_ne!(ColorSpace::Linear, ColorSpace::Lab);
    assert_eq!(LineCapDef::Round, LineCapDef::Round);
    assert_ne!(DisplayKind::Raster, DisplayKind::Vector);
}

#[test]
fn new_ids_are_version_four_uuids() {
    let a = ContainerId::new();
    let b = LibraryId::new();
    assert_eq!(a.0 & UUID_VERSION_VARIANT_MASK, UUID_V4_BITS);
    assert_eq!(b.0 & UUID_VERSION_VARIANT_MASK, UUID_V4_BITS);
    let parsed = uuid::Uuid::from_u128(a.0);
    assert_eq!(parsed.get_version_num(), 4);
    assert_ne!(ContainerId::new(), a);
}

fn sample_engine() -> (ContainerMapping, SceneGraph) {
    let mut mapping = ContainerMapping::new();
    let mut graph = SceneGraph::new(0);
    mapping.add_container(ContainerId(100), 0);
    ContainerCreation::register(&mut mapping, &mut graph, ContainerId(101), 0, 1);
    ContainerCreation::register(&mut mapping, &mut graph, ContainerId(102), 1, 2);
    ContainerCreation::register(&mut mapping, &mut graph, ContainerId(103), 1, 3);
    ContainerCreation::register(&mut mapping, &mut graph, ContainerId(104), 0, 4);
    (mapping, graph)
}

#[test]
fn removing_a_container_lifts_its_children() {
    let (mut mapping, mut graph) = sample_engine();
    assert_eq!(remove_container(&mut mapping, &mut graph, &ContainerId(101)), Some(1));
    assert!(!mapping.contains_container(&ContainerId(101)));
    assert!(!mapping.contains_entity(&1));
    assert_eq!(graph.get_children(&0), Some(&vec![4, 2, 3]));
    assert_eq!(remove_container(&mut mapping, &mut graph, &ContainerId(101)), None);
}

#[test]
fn removing_a_container_with_children_forgets_them_all() {
    let (mut mapping, mut graph) = sample_engine();
    let removed = remove_container_and_children(&mut mapping, &mut graph, &ContainerId(101));
    assert_eq!(removed, vec![1, 2, 3]);
    assert!(!mapping.contains_container(&ContainerId(102)));
    assert!(!mapping.contains_entity(&3));
    assert!(mapping.contains_container(&ContainerId(104)));
    assert_eq!(graph.get_children(&1), None);
    assert!(remove_container_and_children(&mut mapping, &mut graph, &ContainerId(9)).is_empty());
}

#[test]
fn drawing_goes_breadth_first_back_to_front() {
    let mut graph = SceneGraph::new(0);
    graph.add_entity(&0, &1);
    graph.add_entity(&0, &2);
    graph.add_entity(&0, &3);
    graph.add_entity(&1, &4);
    graph.add_entity(&2, &5);
    let mut pending = HashMap::new();
    pending.insert(1, 2i8);
    pending.insert(2, -1i8);
    pending.insert(4, 0i8);
    pending.insert(5, 0i8);
    // Entity 3 draws nothing and sorts as order 0, between 2 (-1) and 1 (2).
    assert_eq!(draw_order(&graph, pending), vec![2, 1, 5, 4]);
}

#[test]
fn siblings_of_one_order_keep_their_order() {
    let mut graph = SceneGraph::new(0);
    for e in 1..=4u64 {
        graph.add_entity(&0, &e);
    }
    let mut pending = HashMap::new();
    pending.insert(3, 0i8);
    pending.insert(1, 0i8);
    pending.insert(4, -5i8);
    pending.insert(2, 0i8);
    assert_eq!(draw_order(&graph, pending), vec![4, 1, 2, 3]);
    assert!(draw_order(&SceneGraph::new(0), HashMap::new()).is_empty());
}

#[test]
fn depth_keys_run_from_the_topmost_ancestor_down() {
    let mut orders = HashMap::new();
    orders.insert(1u64, 3i8);
    orders.insert(2u64, -1i8);
    orders.insert(5u64, 7i8);
    // Ancestors nearest first: 2, then 1; 9 has no order of its own.
    assert_eq!(depth_key_of(&vec![2, 1], &orders, 5), vec![3, -1, 7]);
    assert_eq!(depth_key_of(&vec![], &orders, 9), vec![0]);
}

#[test]
fn depth_sort_puts_higher_orders_in_front_then_lower_ids() {
    let entries: Vec<(u64, Vec<i8>)> = vec![
        (10, vec![0, 1]),
        (11, vec![2, 0]),
        (12, vec![0, 5]),
        (13, vec![0, 1]),
        (4, vec![0, 1]),
    ];
    assert_eq!(depth_sort(&entries), vec![1, 2, 4, 0, 3]);
    assert_eq!(depth_sort(&Vec::new()), Vec::<usize>::new());
}

#[test]
fn depth_sort_keeps_every_entry_when_keys_are_prefixes() {
    let entries: Vec<(u64, Vec<i8>)> = vec![(2, vec![1]), (3, vec![1, 5]), (1, vec![1, 2])];
    let mut order = depth_sort(&entries);
    order.sort();
    assert_eq!(order, vec![0, 1, 2]);
}

#[test]
fn an_order_tween_starts_from_the_order_or_zero() {
    let mut orders: HashMap<u64, i8> = HashMap::new();
    orders.insert(3, -4);
    assert_eq!(ContainerUpdate::order_start(&mut orders, 3), -4);
    assert_eq!(orders.get(&3), Some(&-4));
    assert_eq!(ContainerUpdate::order_start(&mut orders, 8), 0);
    assert_eq!(orders.get(&8), Some(&0));
    assert_eq!(orders.len(), 2);
}
