use w3drs::ecs::archetype::Archetype;
use w3drs::ecs::storage::{ComponentKind, TypedVec};
use w3drs::ecs::{HierarchyComponent, RenderableComponent, World};

/// The component values used by the tests: one variant per component kind.
#[derive(Clone, PartialEq, Debug)]
enum Comp {
    Health(f32),
    Name(String),
}

const HEALTH: ComponentKind = 0;
const NAME: ComponentKind = 1;

fn health(w: &World<Comp>, kind_values: Vec<(u32, &Comp)>) -> Vec<f32> {
    let _ = w;
    let mut vals: Vec<f32> = kind_values
        .into_iter()
        .map(|(_, c)| match c {
            Comp::Health(h) => *h,
            Comp::Name(_) => panic!("not a health value"),
        })
        .collect();
    vals.sort_by(|a, b| a.partial_cmp(b).unwrap());
    vals
}

#[test]
fn create_entity_sequential_ids() {
    let mut w: World<Comp> = World::new();
    assert_eq!(w.create_entity(), 0);
    assert_eq!(w.create_entity(), 1);
    assert_eq!(w.create_entity(), 2);
}

#[test]
fn add_and_get_component() {
    let mut w: World<Comp> = World::new();
    let e = w.create_entity();
    w.add_component(e, HEALTH, Comp::Health(100.0));
    assert_eq!(w.get_component(e, HEALTH), Some(&Comp::Health(100.0)));
}

#[test]
fn get_missing_component_is_none() {
    let mut w: World<Comp> = World::new();
    let e = w.create_entity();
    assert!(w.get_component(e, HEALTH).is_none());
}

#[test]
fn get_component_mut_modifies_in_place() {
    let mut w: World<Comp> = World::new();
    let e = w.create_entity();
    w.add_component(e, HEALTH, Comp::Health(100.0));
    *w.get_component_mut(e, HEALTH).unwrap() = Comp::Health(50.0);
    assert_eq!(w.get_component(e, HEALTH), Some(&Comp::Health(50.0)));
}

#[test]
fn has_component_true_false() {
    let mut w: World<Comp> = World::new();
    let e = w.create_entity();
    assert!(!w.has_component(e, HEALTH));
    w.add_component(e, HEALTH, Comp::Health(1.0));
    assert!(w.has_component(e, HEALTH));
}

#[test]
fn remove_component_removes_it() {
    let mut w: World<Comp> = World::new();
    let e = w.create_entity();
    w.add_component(e, HEALTH, Comp::Health(1.0));
    w.remove_component(e, HEALTH);
    assert!(!w.has_component(e, HEALTH));
}

#[test]
fn destroy_entity_removes_all_components() {
    let mut w: World<Comp> = World::new();
    let e = w.create_entity();
    w.add_component(e, HEALTH, Comp::Health(1.0));
    w.add_component(e, NAME, Comp::Name("Alice".into()));
    w.destroy_entity(e);
    assert!(!w.has_component(e, HEALTH));
    assert!(!w.has_component(e, NAME));
}

#[test]
fn destroy_entity_recycles_id() {
    let mut w: World<Comp> = World::new();
    let e0 = w.create_entity();
    w.destroy_entity(e0);
    let e1 = w.create_entity();
    assert_eq!(e0, e1);
}

#[test]
fn query_entities_returns_matching() {
    let mut w: World<Comp> = World::new();
    let e0 = w.create_entity();
    let _e1 = w.create_entity();
    let e2 = w.create_entity();
    w.add_component(e0, HEALTH, Comp::Health(1.0));
    w.add_component(e2, HEALTH, Comp::Health(2.0));
    let mut found = w.query_entities(HEALTH);
    found.sort();
    assert_eq!(found, vec![e0, e2]);
}

#[test]
fn query_entities_empty_when_none() {
    let w: World<Comp> = World::new();
    assert!(w.query_entities(HEALTH).is_empty());
}

#[test]
fn multiple_component_types_on_same_entity() {
    let mut w: World<Comp> = World::new();
    let e = w.create_entity();
    w.add_component(e, HEALTH, Comp::Health(99.0));
    w.add_component(e, NAME, Comp::Name("Bob".into()));
    assert_eq!(w.get_component(e, HEALTH), Some(&Comp::Health(99.0)));
    assert_eq!(w.get_component(e, NAME), Some(&Comp::Name("Bob".into())));
}

#[test]
fn iter_returns_all_pairs() {
    let mut w: World<Comp> = World::new();
    let e0 = w.create_entity();
    let e1 = w.create_entity();
    w.add_component(e0, HEALTH, Comp::Health(1.0));
    w.add_component(e1, HEALTH, Comp::Health(2.0));
    let vals = health(&w, w.iter(HEALTH));
    assert_eq!(vals, vec![1.0, 2.0]);
}

#[test]
fn overwrite_component() {
    let mut w: World<Comp> = World::new();
    let e = w.create_entity();
    w.add_component(e, HEALTH, Comp::Health(50.0));
    w.add_component(e, HEALTH, Comp::Health(75.0));
    assert_eq!(w.get_component(e, HEALTH), Some(&Comp::Health(75.0)));
}

#[test]
fn add_component_entities_share_archetype() {
    let mut w: World<Comp> = World::new();
    let e0 = w.create_entity();
    let e1 = w.create_entity();
    w.add_component(e0, HEALTH, Comp::Health(1.0));
    w.add_component(e1, HEALTH, Comp::Health(2.0));
    // Both entities should be in the same archetype (Health).
    let loc0 = w.archetype_of(e0).unwrap();
    let loc1 = w.archetype_of(e1).unwrap();
    assert_eq!(loc0, loc1);
}

#[test]
fn different_component_sets_different_archetypes() {
    let mut w: World<Comp> = World::new();
    let e0 = w.create_entity();
    let e1 = w.create_entity();
    w.add_component(e0, HEALTH, Comp::Health(1.0));
    w.add_component(e1, HEALTH, Comp::Health(1.0));
    w.add_component(e1, NAME, Comp::Name("X".into()));
    let loc0 = w.archetype_of(e0).unwrap();
    let loc1 = w.archetype_of(e1).unwrap();
    assert_ne!(loc0, loc1);
}

#[test]
fn swap_remove_fixup_after_destroy() {
    let mut w: World<Comp> = World::new();
    let e0 = w.create_entity();
    let e1 = w.create_entity();
    let e2 = w.create_entity();
    w.add_component(e0, HEALTH, Comp::Health(1.0));
    w.add_component(e1, HEALTH, Comp::Health(2.0));
    w.add_component(e2, HEALTH, Comp::Health(3.0));
    // Destroy the middle entity → e2 should be swap-moved to row 1.
    w.destroy_entity(e1);
    assert_eq!(w.get_component(e0, HEALTH), Some(&Comp::Health(1.0)));
    assert_eq!(w.get_component(e2, HEALTH), Some(&Comp::Health(3.0)));
    assert!(w.get_component(e1, HEALTH).is_none());
}

#[test]
fn iter_cache_friendly_across_archetypes() {
    let mut w: World<Comp> = World::new();
    let e0 = w.create_entity();
    let e1 = w.create_entity();
    let e2 = w.create_entity();
    w.add_component(e0, HEALTH, Comp::Health(1.0));
    w.add_component(e1, HEALTH, Comp::Health(2.0));
    w.add_component(e1, NAME, Comp::Name("e1".into())); // different archetype from e0 and e2
    w.add_component(e2, HEALTH, Comp::Health(3.0));
    // iter should return all three Health values across two archetypes.
    let vals = health(&w, w.iter(HEALTH));
    assert_eq!(vals, vec![1.0, 2.0, 3.0]);
}

#[test]
fn default_has_no_parent_or_children() {
    let h = HierarchyComponent::default();
    assert!(h.parent.is_none());
    assert!(h.children.is_empty());
}

#[test]
fn new_defaults_visible_and_shadow() {
    let r = RenderableComponent::new(1, 2);
    assert_eq!(r.mesh_id, 1);
    assert_eq!(r.material_id, 2);
    assert!(r.visible);
    assert!(r.cast_shadow);
    assert!(r.receive_shadow);
}

// ── laws on concrete values ──────────────────────────────────────────────────

#[test]
fn removing_a_fresh_component_restores_the_entity() {
    let mut w: World<Comp> = World::new();
    let e = w.create_entity();
    w.add_component(e, NAME, Comp::Name("n".into()));
    w.add_component(e, HEALTH, Comp::Health(4.0));
    w.remove_component(e, HEALTH);
    assert!(!w.has_component(e, HEALTH));
    assert_eq!(w.get_component(e, NAME), Some(&Comp::Name("n".into())));
    w.remove_component(e, HEALTH);
    assert!(!w.has_component(e, HEALTH));
    assert_eq!(w.get_component(e, NAME), Some(&Comp::Name("n".into())));
}

#[test]
fn recycled_id_comes_back_empty_and_fresh_ids_follow() {
    let mut w: World<Comp> = World::new();
    let a = w.create_entity();
    let b = w.create_entity();
    assert_eq!(b, a + 1);
    w.add_component(a, HEALTH, Comp::Health(1.0));
    w.add_component(b, HEALTH, Comp::Health(2.0));
    w.destroy_entity(a);
    let c = w.create_entity();
    assert_eq!(c, a);
    assert!(!w.has_component(c, HEALTH));
    assert_eq!(w.get_component(b, HEALTH), Some(&Comp::Health(2.0)));
    assert_eq!(w.create_entity(), b + 1);
}

#[test]
fn same_kinds_same_archetype_after_removal() {
    let mut w: World<Comp> = World::new();
    let e0 = w.create_entity();
    let e1 = w.create_entity();
    w.add_component(e0, HEALTH, Comp::Health(1.0));
    w.add_component(e1, NAME, Comp::Name("x".into()));
    w.add_component(e1, HEALTH, Comp::Health(2.0));
    assert_ne!(w.archetype_of(e0), w.archetype_of(e1));
    w.remove_component(e1, NAME);
    assert_eq!(w.archetype_of(e0), w.archetype_of(e1));
    assert_eq!(w.archetype_of(99), None);
}

#[test]
fn operations_on_dead_entities_change_nothing() {
    let mut w: World<Comp> = World::new();
    let e = w.create_entity();
    w.destroy_entity(e);
    w.add_component(e, HEALTH, Comp::Health(1.0));
    assert!(!w.has_component(e, HEALTH));
    assert!(w.get_component_mut(e, HEALTH).is_none());
    assert!(w.query_entities(HEALTH).is_empty());
}

#[test]
fn for_each_mut_and_for_each_without_mut_update_in_place() {
    let mut w: World<Comp> = World::new();
    let e0 = w.create_entity();
    let e1 = w.create_entity();
    w.add_component(e0, HEALTH, Comp::Health(1.0));
    w.add_component(e1, HEALTH, Comp::Health(2.0));
    w.add_component(e1, NAME, Comp::Name("tagged".into()));
    let double = |c: Comp| match c {
        Comp::Health(h) => Comp::Health(h * 2.0),
        other => other,
    };
    w.for_each_mut(HEALTH, double);
    assert_eq!(w.get_component(e0, HEALTH), Some(&Comp::Health(2.0)));
    assert_eq!(w.get_component(e1, HEALTH), Some(&Comp::Health(4.0)));
    w.for_each_without_mut(HEALTH, NAME, double);
    assert_eq!(w.get_component(e0, HEALTH), Some(&Comp::Health(4.0)));
    assert_eq!(w.get_component(e1, HEALTH), Some(&Comp::Health(4.0)));
    assert_eq!(w.get_component(e1, NAME), Some(&Comp::Name("tagged".into())));
}

#[test]
fn archetype_columns_follow_rows() {
    let mut a: Archetype<Comp> = Archetype::new(vec![HEALTH, NAME]);
    assert!(a.has_type(HEALTH));
    assert!(a.has_type(NAME));
    assert!(!a.has_type(7));
    a.push_row(5, vec![Comp::Health(1.0), Comp::Name("a".into())]);
    a.push_row(6, vec![Comp::Health(2.0), Comp::Name("b".into())]);
    assert_eq!(a.get(HEALTH, 1), Some(&Comp::Health(2.0)));
    assert_eq!(a.get(NAME, 0), Some(&Comp::Name("a".into())));
    assert_eq!(a.get(7, 0), None);
    *a.get_mut(HEALTH, 0).unwrap() = Comp::Health(9.0);
    assert_eq!(a.get(HEALTH, 0), Some(&Comp::Health(9.0)));
    let t: TypedVec<Comp> = TypedVec::new();
    assert!(t.data.is_empty());
}

#[test]
fn archetype_add_column_is_a_no_op_for_a_present_kind() {
    let mut a: Archetype<Comp> = Archetype::new(vec![HEALTH]);
    a.add_column(NAME);
    assert!(a.has_type(HEALTH) && a.has_type(NAME));
    assert_eq!(a.key, vec![HEALTH, NAME]);
    a.push_row(3, vec![Comp::Health(1.0), Comp::Name("x".into())]);
    a.add_column(HEALTH);
    a.add_column(HEALTH);
    assert_eq!(a.key, vec![HEALTH, NAME]);
    assert_eq!(a.entities, vec![3]);
    assert_eq!(a.get(HEALTH, 0), Some(&Comp::Health(1.0)));
    assert_eq!(a.get(NAME, 0), Some(&Comp::Name("x".into())));
    // a new kind on an archetype that holds rows gets an empty column
    a.add_column(7);
    assert_eq!(a.key, vec![HEALTH, NAME, 7]);
    assert!(a.columns[2].data.is_empty());
    assert_eq!(a.columns[0].data, vec![Comp::Health(1.0)]);
    assert_eq!(a.entities, vec![3]);
}

#[test]
fn destroying_a_dead_id_changes_nothing() {
    let mut w: World<Comp> = World::new();
    let e0 = w.create_entity();
    w.add_component(e0, HEALTH, Comp::Health(1.0));
    w.destroy_entity(42);
    w.destroy_entity(e0);
    w.destroy_entity(e0);
    assert_eq!(w.create_entity(), e0);
    assert_eq!(w.create_entity(), 1);
    assert_eq!(w.get_component(e0, HEALTH), None);
}
