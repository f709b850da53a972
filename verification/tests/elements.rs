use delta::bitset::BitSet;
use delta::column::Column;
use delta::layout::{ComponentLayout, EntityManager, FieldLayout};
use delta::world::World;

fn field(name: &str, size: u16) -> FieldLayout {
    FieldLayout { name: name.to_string(), type_id: 0, size }
}

fn pair_layout() -> ComponentLayout {
    ComponentLayout::new(vec![field("x", 4), field("y", 4)])
}

#[test]
fn it_works() {}

#[test]
fn layout_size_is_sum_of_field_sizes() {
    let layout = ComponentLayout::new(vec![field("a", 4), field("b", 1), field("c", 8)]);
    assert_eq!(layout.size, 13);
    assert_eq!(layout.fields.len(), 3);
    assert_eq!(ComponentLayout::new(vec![]).size, 0);
}

#[test]
fn entity_manager_counts_up() {
    let mut manager = EntityManager::new();
    assert_eq!(manager.create(), 0);
    assert_eq!(manager.create(), 1);
    assert_eq!(manager.create(), 2);
    let mut other = EntityManager::default();
    assert_eq!(other.create(), 0);
}

#[test]
fn bitset_set_unset_collect() {
    let mut bits = BitSet::new_empty(0);
    assert_eq!(bits.collect_set(), Vec::<u32>::new());
    bits.set(3);
    bits.set(70);
    bits.set(3);
    assert_eq!(bits.collect_set(), vec![3, 70]);
    bits.unset(3);
    bits.unset(1000);
    assert_eq!(bits.collect_set(), vec![70]);
}

#[test]
fn bitset_intersect_and_disjoint() {
    let mut a = BitSet::new_empty(0);
    let mut b = BitSet::new_empty(0);
    for e in [1u32, 2, 65, 130] {
        a.set(e);
    }
    for e in [2u32, 65] {
        b.set(e);
    }
    let mut both = a.clone();
    both.intersect_with(&b);
    assert_eq!(both.collect_set(), vec![2, 65]);
    let mut only_a = a.clone();
    only_a.disjoint_with(&b);
    // The result keeps only as many words as the shorter of the two sets.
    assert_eq!(only_a.collect_set(), vec![1]);
}

#[test]
fn column_insert_get_remove() {
    let mut column = Column::new(7, pair_layout(), 2);
    assert_eq!(column.get(3), None);
    column.insert(3, &[1, 2, 3, 4, 5, 6, 7, 8]);
    column.insert(5, &[9, 9, 9, 9, 9, 9, 9, 9]);
    assert_eq!(column.get(3), Some(&[1u8, 2, 3, 4, 5, 6, 7, 8][..]));
    column.insert(3, &[0, 0, 0, 0, 1, 1, 1, 1]);
    assert_eq!(column.get(3), Some(&[0u8, 0, 0, 0, 1, 1, 1, 1][..]));
    assert_eq!(column.iter_entities(), vec![3, 5]);
    assert!(column.remove(3));
    assert!(!column.remove(3));
    assert_eq!(column.get(3), None);
    assert_eq!(column.iter_entities(), vec![5]);
    let rows: Vec<(u32, Vec<u8>)> = column.iter().into_iter().map(|(e, b)| (e, b.to_vec())).collect();
    assert_eq!(rows, vec![(5, vec![9, 9, 9, 9, 9, 9, 9, 9])]);
}

#[test]
fn column_remove_moves_last_row() {
    let mut column = Column::new(0, ComponentLayout::new(vec![field("v", 1)]), 0);
    column.insert(10, &[10]);
    column.insert(20, &[20]);
    column.insert(30, &[30]);
    assert!(column.remove(10));
    assert_eq!(column.iter_entities(), vec![30, 20]);
    assert_eq!(column.get(30), Some(&[30u8][..]));
    assert_eq!(column.get(20), Some(&[20u8][..]));
}

#[test]
fn column_get_mut_writes_through() {
    let mut column = Column::new(0, pair_layout(), 1);
    column.insert(0, &[0; 8]);
    if let Some(bytes) = column.get_mut(0) {
        bytes[0] = 42;
    }
    assert_eq!(column.get(0).unwrap()[0], 42);
    assert!(column.get_mut(1).is_none());
}

#[test]
fn column_marker_components_hold_no_bytes() {
    let mut column = Column::new(2, ComponentLayout::new(vec![]), 4);
    column.insert(1, &[]);
    assert_eq!(column.get(1), Some(&[][..]));
}

fn demo_world() -> World {
    let mut world = World::new();
    world.register_component(0, pair_layout());
    world.register_component(1, pair_layout());
    world.register_component(2, ComponentLayout::new(vec![]));
    world.insert(0, 0, &[1; 8]);
    world.insert(1, 0, &[2; 8]);
    world.insert(2, 0, &[]);
    world.insert(0, 1, &[3; 8]);
    world.insert(1, 1, &[4; 8]);
    world.insert(0, 2, &[5; 8]);
    world.insert(0, 3, &[6; 8]);
    world.insert(1, 3, &[7; 8]);
    world.insert(2, 4, &[]);
    world
}

#[test]
fn world_query_with_and_without() {
    let mut world = demo_world();
    let mut result = world.query(&vec![0, 1], &vec![2]);
    assert!(!result.is_empty);
    assert_eq!(result.component_ids, vec![0, 1]);
    assert_eq!(result.next(), Some(1));
    assert_eq!(result.next(), Some(3));
    assert_eq!(result.next(), None);
}

#[test]
fn world_query_without_exclusions() {
    let mut world = demo_world();
    let mut result = world.query(&vec![0, 2], &vec![]);
    assert_eq!(result.component_ids, vec![0]);
    assert_eq!(result.collect(), vec![0]);
    let mut nothing = world.query(&vec![], &vec![2]);
    assert!(nothing.is_empty);
    assert!(nothing.component_ids.is_empty());
    assert_eq!(nothing.next(), None);
}

#[test]
fn world_get_remove_destroy() {
    let mut world = demo_world();
    assert_eq!(world.get(0, 2), Some(&[5u8; 8][..]));
    world.remove(0, 2);
    assert_eq!(world.get(0, 2), None);
    world.destroy(0);
    assert_eq!(world.get(0, 0), None);
    assert_eq!(world.get(1, 0), None);
    assert_eq!(world.get(2, 0), None);
    assert_eq!(world.get(1, 1), Some(&[4u8; 8][..]));
    let entities: Vec<u32> = world.iter(1).into_iter().map(|(e, _)| e).collect();
    assert_eq!(entities, vec![3, 1]);
}

#[test]
fn world_layouts_and_columns() {
    let mut world = demo_world();
    assert_eq!(world.get_component_layout(1).unwrap().size, 8);
    assert!(world.get_component_layout(9).is_none());
    assert_eq!(world.get_column(2).id, 2);
    world.get_column_mut(0).insert(9, &[8; 8]);
    assert_eq!(world.get(0, 9), Some(&[8u8; 8][..]));
    if let Some(bytes) = world.get_mut(0, 9) {
        bytes[7] = 0;
    }
    assert_eq!(world.get(0, 9).unwrap()[7], 0);
    assert!(world.get_two_columns_mut(0, 0).is_err());
    assert!(world.get_two_columns_mut(0, 5).is_err());
    let (a, b) = world.get_two_columns_mut(0, 1).unwrap();
    assert_eq!((a.id, b.id), (0, 1));
}

#[test]
fn default_world_has_no_components() {
    let world = World::default();
    assert!(world.get_component_layout(0).is_none());
    assert!(world.get_component_layout(7).is_none());
}
