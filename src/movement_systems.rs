use vstd::prelude::*;

use crate::geometry::Point;
use crate::world::{lemma_entities_view, EntityView, World};

verus! {

/// The entity after one turn of movement: its position shifts by its velocity.
pub open spec fn moved(v: EntityView) -> EntityView {
    match (v.position, v.moving) {
        (Some(p), Some(m)) => EntityView {
            position: Some(
                Point { x: (p.x + m.velocity.x) as i32, y: (p.y + m.velocity.y) as i32 },
            ),
            ..v
        },
        _ => v,
    }
}

/// Every moving entity stays on the `i32` plane after its next step.
pub open spec fn moves_fit(ents: Seq<EntityView>) -> bool {
    forall|i: int|
        0 <= i < ents.len() && (#[trigger] ents[i]).position.is_some()
            && ents[i].moving.is_some() ==> {
            let p = ents[i].position.unwrap();
            let v = ents[i].moving.unwrap().velocity;
            &&& i32::MIN <= p.x + v.x <= i32::MAX
            &&& i32::MIN <= p.y + v.y <= i32::MAX
        }
}

/// Whether every moving entity of `w` stays on the `i32` plane after its next step.
pub fn check_moves_fit(w: &World) -> (r: bool)
    ensures
        r == moves_fit(w@.entities),
{
    proof {
        lemma_entities_view(w);
    }
    let mut i: usize = 0;
    while i < w.entities.len()
        invariant
            0 <= i <= w.entities@.len(),
            w@.entities.len() == w.entities@.len(),
            forall|k: int| 0 <= k < w.entities@.len() ==> #[trigger] w@.entities[k] == w.entities@[k]@,
            forall|k: int| 0 <= k < i && (#[trigger] w@.entities[k]).position.is_some()
                && w@.entities[k].moving.is_some() ==> {
                let p = w@.entities[k].position.unwrap();
                let v = w@.entities[k].moving.unwrap().velocity;
                &&& i32::MIN <= p.x + v.x <= i32::MAX
                &&& i32::MIN <= p.y + v.y <= i32::MAX
            },
        decreases w.entities@.len() - i,
    {
        match (w.entities[i].position, w.entities[i].moving) {
            (Some(p), Some(m)) => {
                if p.x.checked_add(m.velocity.x).is_none() || p.y.checked_add(m.velocity.y).is_none() {
                    assert(w@.entities[i as int] == w.entities@[i as int]@);
                    return false;
                }
            },
            _ => {},
        }
        i += 1;
    }
    true
}

/// Moves every entity that has a position and a velocity.
pub struct Mover;

impl Mover {
    pub fn run(&mut self, w: &mut World)
        requires
            moves_fit(old(w)@.entities),
        ensures
            final(w)@.entities == old(w)@.entities.map_values(|v: EntityView| moved(v)),
            final(w)@.turn == old(w)@.turn,
            final(w)@.pending == old(w)@.pending,
    {
        let n = w.entities.len();
        let mut i: usize = 0;
        while i < n
            invariant
                n == old(w)@.entities.len(),
                0 <= i <= n,
                moves_fit(old(w)@.entities),
                w.entities@.len() == n,
                forall|k: int| 0 <= k < i ==> w.entities@[k]@ == moved(old(w).entities@[k]@),
                forall|k: int| i <= k < n ==> w.entities@[k] == old(w).entities@[k],
                w@.turn == old(w)@.turn,
                w@.pending == old(w)@.pending,
            decreases n - i,
        {
            let ghost before = w.entities@;
            match (w.entities[i].position, w.entities[i].moving) {
                (Some(p), Some(m)) => {
                    assert(old(w)@.entities[i as int] == old(w).entities@[i as int]@);
                    w.entities[i].position = Some(
                        Point { x: p.x + m.velocity.x, y: p.y + m.velocity.y },
                    );
                },
                _ => {},
            }
            assert(w.entities@[i as int]@ == moved(old(w).entities@[i as int]@));
            assert forall|k: int| 0 <= k < n && k != i implies w.entities@[k] == before[k] by {}
            i += 1;
        }
        assert(w@.entities =~= old(w)@.entities.map_values(|v: EntityView| moved(v)));
    }
}

} // verus!
