//! Order in which world matrices are updated: a breadth-first walk of the entity hierarchy.
//!
//! Each hierarchy link is `(entity, parent, children)`, in the order in which the world lists the
//! entities that carry a hierarchy component. The walk starts from the roots (the entities
//! without a parent), in that order, and appends the children of each entity it takes, in the
//! order of its child list, behind the entities still waiting. An entity's children are those of
//! its first link; an entity without a link has none. Like the walk it describes, the order has
//! no memory of what it has visited: an entity reached twice is updated twice.

use vstd::prelude::*;

use crate::ecs::storage::Entity;

verus! {

/// Model of a hierarchy link: the entity, its parent, its children.
pub type LinkView = (Entity, Option<Entity>, Seq<Entity>);

/// The model of the links.
pub open spec fn links_view(links: Seq<(Entity, Option<Entity>, Vec<Entity>)>) -> Seq<LinkView> {
    Seq::new(links.len(), |i: int| (links[i].0, links[i].1, links[i].2@))
}

/// The children of `e`: those of the first link of `e`, or none when `e` has no link.
pub open spec fn link_children(links: Seq<LinkView>, e: Entity) -> Seq<Entity>
    decreases links.len(),
{
    if links.len() == 0 {
        Seq::empty()
    } else if links[0].0 == e {
        links[0].2
    } else {
        link_children(links.drop_first(), e)
    }
}

/// The roots among the first `n` links (those without a parent), in link order.
pub open spec fn link_roots(links: Seq<LinkView>, n: int) -> Seq<Entity>
    decreases n,
{
    if n <= 0 || n > links.len() {
        Seq::empty()
    } else if links[n - 1].1 is None {
        link_roots(links, n - 1).push(links[n - 1].0)
    } else {
        link_roots(links, n - 1)
    }
}

/// The walk from the waiting entities `queue` within `fuel` steps: the entities in the order
/// they are taken, or `None` when the queue is still not empty after `fuel` steps.
pub open spec fn walk_from(links: Seq<LinkView>, queue: Seq<Entity>, fuel: nat) -> Option<Seq<Entity>>
    decreases fuel,
{
    if queue.len() == 0 {
        Some(Seq::empty())
    } else if fuel == 0 {
        None
    } else {
        match walk_from(links, queue.drop_first() + link_children(links, queue[0]), (fuel - 1) as nat) {
            Some(rest) => Some(seq![queue[0]] + rest),
            None => None,
        }
    }
}

/// The walk from the roots ends: it reaches no cycle.
pub open spec fn hierarchy_forest(links: Seq<(Entity, Option<Entity>, Vec<Entity>)>) -> bool {
    let ls = links_view(links);
    exists|fuel: nat| (#[trigger] walk_from(ls, link_roots(ls, ls.len() as int), fuel)) is Some
}

/// A number of steps within which the walk from the roots ends (when it does).
pub open spec fn walk_length(links: Seq<(Entity, Option<Entity>, Vec<Entity>)>) -> nat {
    let ls = links_view(links);
    choose|fuel: nat| (#[trigger] walk_from(ls, link_roots(ls, ls.len() as int), fuel)) is Some
}

/// The breadth-first order of the hierarchy: the roots in link order, then the children of each
/// entity taken, in child-list order.
pub open spec fn bfs_order(links: Seq<(Entity, Option<Entity>, Vec<Entity>)>) -> Seq<Entity> {
    let ls = links_view(links);
    walk_from(ls, link_roots(ls, ls.len() as int), walk_length(links))->Some_0
}

/// The roots (entities without a parent), in link order.
fn roots_of(links: &Vec<(Entity, Option<Entity>, Vec<Entity>)>) -> (r: Vec<Entity>)
    ensures
        r@ == link_roots(links_view(links@), links@.len() as int),
{
    let ghost ls = links_view(links@);
    let mut r: Vec<Entity> = Vec::new();
    let mut i: usize = 0;
    while i < links.len()
        invariant
            i <= links@.len(),
            ls == links_view(links@),
            r@ == link_roots(ls, i as int),
        decreases links.len() - i,
    {
        if links[i].1.is_none() {
            r.push(links[i].0);
        }
        i = i + 1;
    }
    r
}

proof fn lemma_link_children_from(ls: Seq<LinkView>, e: Entity, i: int)
    requires
        0 <= i <= ls.len(),
        forall|j: int| 0 <= j < i ==> (#[trigger] ls[j]).0 != e,
    ensures
        link_children(ls.subrange(i, ls.len() as int), e) == link_children(ls, e),
    decreases i,
{
    if i > 0 {
        lemma_link_children_from(ls, e, i - 1);
        let tail = ls.subrange(i - 1, ls.len() as int);
        assert(tail[0] == ls[i - 1]);
        assert(tail.drop_first() =~= ls.subrange(i, ls.len() as int));
    } else {
        assert(ls.subrange(0, ls.len() as int) =~= ls);
    }
}

/// The children of `e` (see [`link_children`]).
fn children_of(links: &Vec<(Entity, Option<Entity>, Vec<Entity>)>, e: Entity) -> (r: Vec<Entity>)
    ensures
        r@ == link_children(links_view(links@), e),
{
    let ghost ls = links_view(links@);
    let mut i: usize = 0;
    while i < links.len()
        invariant
            i <= links@.len(),
            ls == links_view(links@),
            forall|j: int| 0 <= j < i ==> (#[trigger] ls[j]).0 != e,
        decreases links.len() - i,
    {
        if links[i].0 == e {
            proof {
                lemma_link_children_from(ls, e, i as int);
                let tail = ls.subrange(i as int, ls.len() as int);
                assert(tail[0] == ls[i as int]);
            }
            return links[i].2.clone();
        }
        i = i + 1;
    }
    proof {
        lemma_link_children_from(ls, e, i as int);
    }
    Vec::new()
}

/// The walk from the roots, stopped after `max_steps` steps: the order in which the entities are
/// taken when the walk ends within `max_steps` steps, `None` otherwise.
pub fn hierarchy_update_order_within(links: &Vec<(Entity, Option<Entity>, Vec<Entity>)>, max_steps: usize) -> (r:
    Option<Vec<Entity>>)
    ensures
        match r {
            Some(order) => walk_from(
                links_view(links@),
                link_roots(links_view(links@), links@.len() as int),
                max_steps as nat,
            ) == Some(order@),
            None => walk_from(
                links_view(links@),
                link_roots(links_view(links@), links@.len() as int),
                max_steps as nat,
            ) is None,
        },
{
    let ghost ls = links_view(links@);
    let ghost total = walk_from(ls, link_roots(ls, ls.len() as int), max_steps as nat);
    let mut queue: std::collections::VecDeque<Entity> = std::collections::VecDeque::new();
    let roots = roots_of(links);
    let mut k: usize = 0;
    while k < roots.len()
        invariant
            k <= roots@.len(),
            queue@ == roots@.subrange(0, k as int),
        decreases roots.len() - k,
    {
        queue.push_back(roots[k]);
        k = k + 1;
    }
    assert(roots@.subrange(0, roots@.len() as int) =~= roots@);
    let mut order: Vec<Entity> = Vec::new();
    proof {
        if let Some(rest) = total {
            assert(order@ + rest =~= rest);
        }
    }
    let mut steps: usize = 0;
    while queue.len() > 0
        invariant
            steps <= max_steps,
            ls == links_view(links@),
            total == walk_from(ls, link_roots(ls, ls.len() as int), max_steps as nat),
            total == match walk_from(ls, queue@, (max_steps - steps) as nat) {
                Some(rest) => Some(order@ + rest),
                None => None::<Seq<Entity>>,
            },
        decreases max_steps - steps,
    {
        if steps == max_steps {
            return None;
        }
        let ghost q0 = queue@;
        let e = queue.pop_front().unwrap();
        let ghost q = queue@;
        let children = children_of(links, e);
        let mut c: usize = 0;
        while c < children.len()
            invariant
                c <= children@.len(),
                queue@ == q + children@.subrange(0, c as int),
            decreases children.len() - c,
        {
            queue.push_back(children[c]);
            c = c + 1;
        }
        proof {
            assert(children@.subrange(0, children@.len() as int) =~= children@);
            let f = (max_steps - steps) as nat;
            assert(q0.drop_first() =~= q);
            match walk_from(ls, queue@, (f - 1) as nat) {
                Some(rest) => {
                    assert(order@.push(e) + rest =~= order@ + (seq![e] + rest));
                },
                None => {},
            }
        }
        order.push(e);
        steps = steps + 1;
    }
    assert(order@ + Seq::<Entity>::empty() =~= order@);
    Some(order)
}

/// The order in which world matrices are updated: the breadth-first walk of the hierarchy from
/// its roots (see [`bfs_order`]).
pub fn hierarchy_update_order(links: &Vec<(Entity, Option<Entity>, Vec<Entity>)>) -> (order: Vec<Entity>)
    requires
        hierarchy_forest(links@),
    ensures
        order@ == bfs_order(links@),
{
    let ghost ls = links_view(links@);
    let ghost fuel = walk_length(links@);
    let ghost total = walk_from(ls, link_roots(ls, ls.len() as int), fuel);
    let mut queue: std::collections::VecDeque<Entity> = std::collections::VecDeque::new();
    let roots = roots_of(links);
    let mut k: usize = 0;
    while k < roots.len()
        invariant
            k <= roots@.len(),
            queue@ == roots@.subrange(0, k as int),
        decreases roots.len() - k,
    {
        queue.push_back(roots[k]);
        k = k + 1;
    }
    assert(roots@.subrange(0, roots@.len() as int) =~= roots@);
    let mut order: Vec<Entity> = Vec::new();
    let ghost mut left: nat = fuel;
    proof {
        if let Some(rest) = total {
            assert(order@ + rest =~= rest);
        }
    }
    while queue.len() > 0
        invariant
            ls == links_view(links@),
            total is Some,
            total == match walk_from(ls, queue@, left) {
                Some(rest) => Some(order@ + rest),
                None => None::<Seq<Entity>>,
            },
        decreases left,
    {
        let ghost q0 = queue@;
        let e = queue.pop_front().unwrap();
        let ghost q = queue@;
        let children = children_of(links, e);
        let mut c: usize = 0;
        while c < children.len()
            invariant
                c <= children@.len(),
                queue@ == q + children@.subrange(0, c as int),
            decreases children.len() - c,
        {
            queue.push_back(children[c]);
            c = c + 1;
        }
        proof {
            assert(children@.subrange(0, children@.len() as int) =~= children@);
            assert(q0.drop_first() =~= q);
            match walk_from(ls, queue@, (left - 1) as nat) {
                Some(rest) => {
                    assert(order@.push(e) + rest =~= order@ + (seq![e] + rest));
                },
                None => {},
            }
            left = (left - 1) as nat;
        }
        order.push(e);
    }
    assert(order@ + Seq::<Entity>::empty() =~= order@);
    order
}

/// The entity at position `i` of `order` is a child of an entity before it.
pub open spec fn child_of_earlier(ls: Seq<LinkView>, order: Seq<Entity>, i: int) -> bool {
    exists|j: int| 0 <= j < i && #[trigger] link_children(ls, order[j]).contains(order[i])
}

proof fn lemma_walk_prefix(ls: Seq<LinkView>, q: Seq<Entity>, fuel: nat)
    requires
        walk_from(ls, q, fuel) is Some,
    ensures
        ({
            let r = walk_from(ls, q, fuel)->Some_0;
            &&& q.len() <= r.len()
            &&& r.subrange(0, q.len() as int) == q
            &&& forall|i: int| q.len() <= i < r.len() ==> #[trigger] child_of_earlier(ls, r, i)
        }),
    decreases fuel,
{
    if q.len() > 0 {
        let q2 = q.drop_first() + link_children(ls, q[0]);
        lemma_walk_prefix(ls, q2, (fuel - 1) as nat);
        let r2 = walk_from(ls, q2, (fuel - 1) as nat)->Some_0;
        let r = walk_from(ls, q, fuel)->Some_0;
        assert(r == seq![q[0]] + r2);
        assert(r.subrange(0, q.len() as int) =~= q) by {
            assert forall|t: int| 0 <= t < q.len() implies r.subrange(0, q.len() as int)[t] == q[t] by {
                if t > 0 {
                    assert(r2.subrange(0, q2.len() as int)[t - 1] == q2[t - 1]);
                }
            }
        }
        assert forall|i: int| q.len() <= i < r.len() implies #[trigger] child_of_earlier(ls, r, i) by {
            let i2 = i - 1;
            assert(r[i] == r2[i2]);
            if i2 >= q2.len() {
                assert(child_of_earlier(ls, r2, i2));
                let j2 = choose|j: int| 0 <= j < i2 && #[trigger] link_children(ls, r2[j]).contains(r2[i2]);
                assert(r[j2 + 1] == r2[j2]);
                assert(link_children(ls, r[j2 + 1]).contains(r[i]));
            } else {
                let c = i2 - (q.len() - 1);
                assert(r2.subrange(0, q2.len() as int)[i2] == q2[i2]);
                assert(q2[i2] == link_children(ls, q[0])[c]);
                assert(r[0] == q[0]);
                assert(link_children(ls, r[0]).contains(r[i]));
            }
        }
    }
}

proof fn lemma_walk_more_fuel(ls: Seq<LinkView>, q: Seq<Entity>, f1: nat, f2: nat)
    requires
        walk_from(ls, q, f1) is Some,
        f1 <= f2,
    ensures
        walk_from(ls, q, f2) == walk_from(ls, q, f1),
    decreases f1,
{
    if q.len() > 0 {
        lemma_walk_more_fuel(ls, q.drop_first() + link_children(ls, q[0]), (f1 - 1) as nat, (f2 - 1) as nat);
    }
}

/// The update order starts with the roots, in link order, and every entity after them is a child
/// of an entity updated before it: a parent's world matrix is ready before its children's.
pub proof fn lemma_update_order_top_down(links: Seq<(Entity, Option<Entity>, Vec<Entity>)>)
    requires
        hierarchy_forest(links),
    ensures
        ({
            let ls = links_view(links);
            let roots = link_roots(ls, ls.len() as int);
            let order = bfs_order(links);
            &&& roots.len() <= order.len()
            &&& order.subrange(0, roots.len() as int) == roots
            &&& forall|i: int| roots.len() <= i < order.len() ==> #[trigger] child_of_earlier(ls, order, i)
        }),
{
    let ls = links_view(links);
    lemma_walk_prefix(ls, link_roots(ls, ls.len() as int), walk_length(links));
}

/// Whenever the walk stopped after `max_steps` steps ends within them, it gives the update order.
pub proof fn lemma_bounded_walk_is_update_order(links: Seq<(Entity, Option<Entity>, Vec<Entity>)>, max_steps: nat)
    requires
        walk_from(links_view(links), link_roots(links_view(links), links.len() as int), max_steps) is Some,
    ensures
        hierarchy_forest(links),
        walk_from(links_view(links), link_roots(links_view(links), links.len() as int), max_steps) == Some(
            bfs_order(links),
        ),
{
    let ls = links_view(links);
    let roots = link_roots(ls, ls.len() as int);
    assert(walk_from(ls, roots, max_steps) is Some);
    let f = walk_length(links);
    if f <= max_steps {
        lemma_walk_more_fuel(ls, roots, f, max_steps);
    } else {
        lemma_walk_more_fuel(ls, roots, max_steps, f);
    }
}

} // verus!
