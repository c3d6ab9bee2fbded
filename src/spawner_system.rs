use vstd::prelude::*;

use crate::components::{Component, Entity, Moving};
use crate::geometry::Point;
use crate::world::{empty_view, World};

verus! {

/// The insertions that seed the first `i` entities of a row, the first one being `base`.
pub open spec fn spawn_queue(base: int, i: int) -> Seq<(Entity, Component)>
    decreases i,
{
    if i <= 0 {
        Seq::empty()
    } else {
        let e = Entity { id: (base + i - 1) as usize };
        spawn_queue(base, i - 1) + seq![
            (e, Component::Position(Point { x: (100 + i - 1) as i32, y: 10 })),
            (e, Component::Detectable),
            (e, Component::Moving(Moving { velocity: Point { x: 0, y: 5 } })),
        ]
    }
}

/// Seeds a row of one hundred detectable entities at x = 100..199, y = 10, moving down by 5.
pub struct Spawner;

impl Spawner {
    pub fn run(&mut self, w: &mut World)
        requires
            old(w)@.entities.len() + 100 < usize::MAX,
        ensures
            final(w)@.entities == old(w)@.entities + Seq::new(100, |k: int| empty_view()),
            final(w)@.pending == old(w)@.pending + spawn_queue(old(w)@.entities.len() as int, 100),
            final(w)@.turn == old(w)@.turn,
    {
        let ghost base = old(w)@.entities.len() as int;
        let mut i: i32 = 100;
        assert(old(w)@.entities + Seq::new(0, |k: int| empty_view()) =~= old(w)@.entities);
        assert(old(w)@.pending + spawn_queue(base, 0) =~= old(w)@.pending);
        while i < 200
            invariant
                100 <= i <= 200,
                base == old(w)@.entities.len(),
                base + 100 < usize::MAX,
                w@.entities == old(w)@.entities + Seq::new((i - 100) as nat, |k: int| empty_view()),
                w@.pending == old(w)@.pending + spawn_queue(base, i - 100),
                w@.turn == old(w)@.turn,
            decreases 200 - i,
        {
            let e = w.create();
            w.lazy_insert(e, Component::Position(Point { x: i, y: 10 }));
            w.lazy_insert(e, Component::Detectable);
            w.lazy_insert(e, Component::Moving(Moving { velocity: Point { x: 0, y: 5 } }));
            assert(w@.entities =~= old(w)@.entities + Seq::new((i + 1 - 100) as nat, |k: int| empty_view()));
            assert(w@.pending =~= old(w)@.pending + spawn_queue(base, i + 1 - 100));
            i += 1;
        }
    }
}

} // verus!
