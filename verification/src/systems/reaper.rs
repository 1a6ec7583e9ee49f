//! The reaper: it counts down the ticks that entities have left, and lets
//! one of those that expire go out in a burst of particles.

use vstd::prelude::*;
use crate::entity::{lemma_take_next, Entity, EntitySet};
use crate::component::{
    lemma_seq_set_1, lemma_type_set_index, type_set, Component, ComponentType, Coords, MyColor,
    MySize, Rgba, Velocity, Weight, TTL,
};
use crate::store::{
    color_of, coords_of, lemma_follows_remove, lemma_follows_trans, size_of, ttl_of,
    velocity_of, weight_of, within, Cells, ComponentManager,
};
use crate::command::{all_within, Command, CommandBuffer, Target};
use crate::input::{InputView, TickInput};
use crate::system::System;
use crate::coordinator::{lemma_run_commands_concat, run_command, run_commands, Outcome};
use crate::random::{burst_fits, within_speed, BURST_COUNT, BURST_SPEED};

verus! {

/// Whether `e` counts down: it is a member and has ticks left to count.
pub open spec fn ages(cells: Cells, members: Seq<Entity>, e: Entity) -> bool {
    members.contains(e) && ttl_of(cells, e) is Some
}

/// Whether the count of `e` reaches zero or less with this tick.
pub open spec fn runs_out(cells: Cells, e: Entity) -> bool {
    ttl_of(cells, e) is Some && ttl_of(cells, e).unwrap().ttl - 1 <= 0
}

/// The cells after the reaper went over `members`: a member whose count
/// runs out has no count any more, any other member that counts has one
/// tick less, and every other cell is as before.
pub open spec fn reap_cells(cells: Cells, members: Seq<Entity>) -> Cells {
    Map::new(
        |k: (Entity, ComponentType)|
            cells.contains_key(k) && !(k.1 == ComponentType::TTL && members.contains(k.0)
                && runs_out(cells, k.0)),
        |k: (Entity, ComponentType)|
            if k.1 == ComponentType::TTL && ages(cells, members, k.0) {
                Component::TTL(TTL { ttl: (ttl_of(cells, k.0).unwrap().ttl - 1) as i32 })
            } else {
                cells[k]
            },
    )
}

/// Where this tick's burst starts: at the position of the first of
/// `members` whose count runs out and that has a position. At most one
/// burst starts per tick, whatever the number of members that expire.
pub open spec fn burst_origin(cells: Cells, members: Seq<Entity>) -> Option<Coords>
    decreases members.len(),
{
    if members.len() == 0 {
        None
    } else {
        match burst_origin(cells, members.drop_last()) {
            Some(c) => Some(c),
            None => if runs_out(cells, members.last()) {
                coords_of(cells, members.last())
            } else {
                None
            },
        }
    }
}

/// The operations that make one particle at `at` with velocity `v`.
pub open spec fn particle(at: Coords, v: Velocity) -> Seq<Command> {
    seq![
        Command::CreateEntity,
        Command::AttachComponent(Target::Created, Component::Coords(at)),
        Command::AttachComponent(Target::Created, Component::Velocity(v)),
        Command::AttachComponent(Target::Created, Component::Weight(Weight { w: 2 })),
        Command::AttachComponent(Target::Created, Component::MySize(MySize { s: 2 })),
        Command::AttachComponent(
            Target::Created,
            Component::MyColor(MyColor { c: Rgba::blue_violet() }),
        ),
    ]
}

/// The operations that make a burst at `at`: one particle for each of
/// `velocities`, in their order.
pub open spec fn burst_commands(at: Coords, velocities: Seq<Velocity>) -> Seq<Command>
    decreases velocities.len(),
{
    if velocities.len() == 0 {
        Seq::empty()
    } else {
        burst_commands(at, velocities.drop_last()) + particle(at, velocities.last())
    }
}

/// A burst holds six operations for each velocity.
pub proof fn lemma_burst_len(at: Coords, velocities: Seq<Velocity>)
    ensures
        burst_commands(at, velocities).len() == 6 * velocities.len(),
    decreases velocities.len(),
{
    if velocities.len() > 0 {
        lemma_burst_len(at, velocities.drop_last());
    }
}

/// The cells after entity `p` was made a particle at `at` with velocity `v`.
pub open spec fn with_particle(cells: Cells, p: Entity, at: Coords, v: Velocity) -> Cells {
    cells.insert((p, ComponentType::Coords), Component::Coords(at)).insert(
        (p, ComponentType::Velocity),
        Component::Velocity(v),
    ).insert((p, ComponentType::Weight), Component::Weight(Weight { w: 2 })).insert(
        (p, ComponentType::MySize),
        Component::MySize(MySize { s: 2 }),
    ).insert(
        (p, ComponentType::MyColor),
        Component::MyColor(MyColor { c: Rgba::blue_violet() }),
    )
}

/// The cells after the entities from the `count`-th on were made the
/// particles of a burst at `at`, one for each of `velocities`.
pub open spec fn with_burst(cells: Cells, count: nat, at: Coords, velocities: Seq<Velocity>) -> Cells
    decreases velocities.len(),
{
    if velocities.len() == 0 {
        cells
    } else {
        with_particle(
            with_burst(cells, count, at, velocities.drop_last()),
            Entity { id: (count + velocities.len() - 1) as u64 },
            at,
            velocities.last(),
        )
    }
}

/// Carrying out the operations of one particle creates the next entity and
/// makes it that particle.
pub proof fn lemma_particle_outcome(o: Outcome, at: Coords, v: Velocity)
    requires
        o.count < u64::MAX,
    ensures
        run_commands(o, particle(at, v)) == (Outcome {
            cells: with_particle(o.cells, Entity { id: o.count as u64 }, at, v),
            count: o.count + 1,
            created: Some(Entity { id: o.count as u64 }),
            frame: o.frame,
        }),
{
    let c0 = Command::CreateEntity;
    let c1 = Command::AttachComponent(Target::Created, Component::Coords(at));
    let c2 = Command::AttachComponent(Target::Created, Component::Velocity(v));
    let c3 = Command::AttachComponent(Target::Created, Component::Weight(Weight { w: 2 }));
    let c4 = Command::AttachComponent(Target::Created, Component::MySize(MySize { s: 2 }));
    let c5 = Command::AttachComponent(
        Target::Created,
        Component::MyColor(MyColor { c: Rgba::blue_violet() }),
    );
    let s0 = Seq::<Command>::empty();
    let s1 = s0.push(c0);
    let s2 = s1.push(c1);
    let s3 = s2.push(c2);
    let s4 = s3.push(c3);
    let s5 = s4.push(c4);
    let s6 = s5.push(c5);
    assert(s1.drop_last() =~= s0 && s1.last() == c0);
    assert(s2.drop_last() =~= s1 && s2.last() == c1);
    assert(s3.drop_last() =~= s2 && s3.last() == c2);
    assert(s4.drop_last() =~= s3 && s4.last() == c3);
    assert(s5.drop_last() =~= s4 && s5.last() == c4);
    assert(s6.drop_last() =~= s5 && s6.last() == c5);
    assert(particle(at, v) =~= s6);
    assert(run_commands(o, s0) == o);
    assert(run_commands(o, s1) == run_command(run_commands(o, s0), c0));
    assert(run_commands(o, s2) == run_command(run_commands(o, s1), c1));
    assert(run_commands(o, s3) == run_command(run_commands(o, s2), c2));
    assert(run_commands(o, s4) == run_command(run_commands(o, s3), c3));
    assert(run_commands(o, s5) == run_command(run_commands(o, s4), c4));
    assert(run_commands(o, s6) == run_command(run_commands(o, s5), c5));
}

/// Carrying out a burst creates one entity for each velocity and makes
/// them the particles, as long as identifiers are left for all of them.
pub proof fn lemma_burst_outcome(o: Outcome, at: Coords, velocities: Seq<Velocity>)
    requires
        o.count + velocities.len() <= u64::MAX,
    ensures
        run_commands(o, burst_commands(at, velocities)).cells == with_burst(
            o.cells,
            o.count,
            at,
            velocities,
        ),
        run_commands(o, burst_commands(at, velocities)).count == o.count + velocities.len(),
        run_commands(o, burst_commands(at, velocities)).frame == o.frame,
    decreases velocities.len(),
{
    if velocities.len() > 0 {
        let head = velocities.drop_last();
        lemma_burst_outcome(o, at, head);
        let mid = run_commands(o, burst_commands(at, head));
        lemma_run_commands_concat(o, burst_commands(at, head), particle(at, velocities.last()));
        lemma_particle_outcome(mid, at, velocities.last());
    }
}

/// In the cells of a burst the `k`-th new entity is a particle with the
/// `k`-th velocity.
pub proof fn lemma_with_burst(
    cells: Cells,
    count: nat,
    at: Coords,
    velocities: Seq<Velocity>,
    k: int,
)
    requires
        count + velocities.len() <= u64::MAX,
        within(cells, count),
        0 <= k < velocities.len(),
    ensures
        with_burst(cells, count, at, velocities) == with_particle(
            with_burst(cells, count, at, velocities),
            Entity { id: (count + k) as u64 },
            at,
            velocities[k],
        ),
    decreases velocities.len(),
{
    let head = velocities.drop_last();
    let last = Entity { id: (count + velocities.len() - 1) as u64 };
    let before = with_burst(cells, count, at, head);
    let after = with_burst(cells, count, at, velocities);
    let p = Entity { id: (count + k) as u64 };
    if k < velocities.len() - 1 {
        lemma_with_burst(cells, count, at, head, k);
        assert(head[k] == velocities[k]);
        assert(after =~= with_particle(after, p, at, velocities[k]));
    } else {
        assert(after =~= with_particle(after, p, at, velocities[k]));
    }
}

/// A burst leaves what the entities created before hold as it was, gives
/// no entity a count of ticks, and gives components to the new entities
/// only.
pub proof fn lemma_burst_frame(cells: Cells, count: nat, at: Coords, velocities: Seq<Velocity>)
    requires
        count + velocities.len() <= u64::MAX,
        within(cells, count),
    ensures
        within(with_burst(cells, count, at, velocities), count + velocities.len()),
        forall|e: Entity, t: ComponentType|
            e.id < count ==> (#[trigger] with_burst(cells, count, at, velocities).contains_key(
                (e, t),
            ) <==> cells.contains_key((e, t))),
        forall|e: Entity, t: ComponentType|
            e.id < count && cells.contains_key((e, t)) ==> #[trigger] with_burst(
                cells,
                count,
                at,
                velocities,
            )[(e, t)] == cells[(e, t)],
        forall|e: Entity|
            e.id >= count ==> !(#[trigger] with_burst(cells, count, at, velocities).contains_key(
                (e, ComponentType::TTL),
            )),
    decreases velocities.len(),
{
    if velocities.len() > 0 {
        lemma_burst_frame(cells, count, at, velocities.drop_last());
    }
}

/// The burst of a tick makes exactly as many particles as a burst has, each
/// at the place of the burst, with its own velocity, which is no faster
/// than a particle may be, with weight, size and colour, and without a
/// count of ticks. The entities created before hold what they held.
pub proof fn lemma_burst_particles(o: Outcome, at: Coords, velocities: Seq<Velocity>, k: int)
    requires
        burst_fits(velocities),
        o.count + BURST_COUNT <= u64::MAX,
        within(o.cells, o.count),
        0 <= k < BURST_COUNT,
    ensures
        ({
            let r = run_commands(o, burst_commands(at, velocities));
            let p = Entity { id: (o.count + k) as u64 };
            &&& r.count == o.count + BURST_COUNT
            &&& r.frame == o.frame
            &&& coords_of(r.cells, p) == Some(at)
            &&& velocity_of(r.cells, p) == Some(velocities[k])
            &&& within_speed(velocities[k], BURST_SPEED as int)
            &&& weight_of(r.cells, p) == Some(Weight { w: 2 })
            &&& size_of(r.cells, p) == Some(MySize { s: 2 })
            &&& color_of(r.cells, p) == Some(MyColor { c: Rgba::blue_violet() })
            &&& ttl_of(r.cells, p) is None
            &&& forall|e: Entity, t: ComponentType|
                e.id < o.count ==> (#[trigger] r.cells.contains_key((e, t))
                    <==> o.cells.contains_key((e, t)))
            &&& forall|e: Entity, t: ComponentType|
                e.id < o.count && o.cells.contains_key((e, t)) ==> #[trigger] r.cells[(e, t)]
                    == o.cells[(e, t)]
        }),
{
    lemma_burst_outcome(o, at, velocities);
    lemma_with_burst(o.cells, o.count, at, velocities, k);
    lemma_burst_frame(o.cells, o.count, at, velocities);
}

/// The component types that the particles of a burst are made of.
pub open spec fn particle_types() -> Set<ComponentType> {
    set![
        ComponentType::Coords,
        ComponentType::Velocity,
        ComponentType::Weight,
        ComponentType::MySize,
        ComponentType::MyColor,
    ]
}

/// The system that removes expired counts and starts bursts.
pub struct Reaper {
    entities: EntitySet,
    component_types: Vec<ComponentType>,
    touched_types: Vec<ComponentType>,
}

impl Reaper {
    /// A reaper without members. It requires a count of remaining ticks.
    pub fn new() -> (s: Reaper)
        ensures
            s.wf(),
            s.members() == Seq::<Entity>::empty(),
            s.required() == set![ComponentType::TTL],
            s.touches() == particle_types().insert(ComponentType::TTL),
    {
        let component_types = vec![ComponentType::TTL];
        let touched_types = vec![
            ComponentType::TTL,
            ComponentType::Coords,
            ComponentType::Velocity,
            ComponentType::Weight,
            ComponentType::MySize,
            ComponentType::MyColor,
        ];
        let s = Reaper { entities: EntitySet::new(), component_types, touched_types };
        proof {
            assert(s.component_types@ =~= seq![ComponentType::TTL]);
            assert(s.touched_types@ =~= Reaper::touched_list());
            lemma_seq_set_1(s.component_types@, ComponentType::TTL);
            Reaper::lemma_touched();
        }
        s
    }

    /// The component types that a step may touch.
    pub open spec fn touched_list() -> Seq<ComponentType> {
        seq![
            ComponentType::TTL,
            ComponentType::Coords,
            ComponentType::Velocity,
            ComponentType::Weight,
            ComponentType::MySize,
            ComponentType::MyColor,
        ]
    }

    proof fn lemma_touched()
        ensures
            type_set(Self::touched_list()) == particle_types().insert(ComponentType::TTL),
    {
        let l = Self::touched_list();
        lemma_type_set_index(l, 0);
        lemma_type_set_index(l, 1);
        lemma_type_set_index(l, 2);
        lemma_type_set_index(l, 3);
        lemma_type_set_index(l, 4);
        lemma_type_set_index(l, 5);
        assert(type_set(l) =~= particle_types().insert(ComponentType::TTL));
    }

    /// The operations that make a burst at `at`, one particle for each of
    /// `velocities`.
    pub fn burst(at: Coords, velocities: &Vec<Velocity>) -> (buf: CommandBuffer)
        ensures
            buf@ == burst_commands(at, velocities@),
            all_within(buf@, particle_types()),
    {
        let mut buf = CommandBuffer::new();
        let mut j: usize = 0;
        assert(velocities@.take(0) =~= Seq::<Velocity>::empty());
        while j < velocities.len()
            invariant
                j <= velocities@.len(),
                buf@ == burst_commands(at, velocities@.take(j as int)),
                all_within(buf@, particle_types()),
            decreases velocities@.len() - j,
        {
            let v = velocities[j];
            let ghost so_far = buf@;
            buf.push(Command::CreateEntity);
            buf.push(Command::AttachComponent(Target::Created, Component::Coords(at)));
            buf.push(Command::AttachComponent(Target::Created, Component::Velocity(v)));
            buf.push(Command::AttachComponent(Target::Created, Component::Weight(Weight { w: 2 })));
            buf.push(Command::AttachComponent(Target::Created, Component::MySize(MySize { s: 2 })));
            buf.push(
                Command::AttachComponent(
                    Target::Created,
                    Component::MyColor(MyColor { c: Rgba::blue_violet() }),
                ),
            );
            proof {
                assert(velocities@.take(j + 1).drop_last() =~= velocities@.take(j as int));
                assert(velocities@.take(j + 1).last() == v);
                assert(buf@ =~= so_far + particle(at, v));
            }
            j = j + 1;
        }
        assert(velocities@.take(velocities@.len() as int) =~= velocities@);
        buf
    }
}

impl System for Reaper {
    closed spec fn wf(&self) -> bool {
        &&& self.entities.wf()
        &&& self.component_types@ == seq![ComponentType::TTL]
        &&& self.touched_types@ == Reaper::touched_list()
    }

    closed spec fn required(&self) -> Set<ComponentType> {
        type_set(self.component_types@)
    }

    closed spec fn members(&self) -> Seq<Entity> {
        self.entities@
    }

    closed spec fn touches(&self) -> Set<ComponentType> {
        type_set(self.touched_types@)
    }

    open spec fn step(&self, members: Seq<Entity>, cells: Cells, input: InputView) -> Cells {
        reap_cells(cells, members)
    }

    open spec fn emits(&self, members: Seq<Entity>, cells: Cells, input: InputView) -> Seq<
        Command,
    > {
        match burst_origin(cells, members) {
            Some(at) => burst_commands(at, input.burst),
            None => Seq::empty(),
        }
    }

    fn add(&mut self, e: Entity) {
        self.entities.insert(e);
    }

    fn remove(&mut self, e: Entity) {
        self.entities.remove(e);
    }

    fn get_component_types(&self) -> (types: &Vec<ComponentType>) {
        &self.component_types
    }

    fn get_touched_types(&self) -> (types: &Vec<ComponentType>) {
        &self.touched_types
    }

    fn has_member(&self, e: Entity) -> (b: bool) {
        self.entities.has(e)
    }

    fn apply(&mut self, cm: &mut ComponentManager, input: &TickInput) -> (buf: CommandBuffer) {
        let ghost before = cm@;
        proof {
            Reaper::lemma_touched();
        }
        let n = self.entities.len();
        let mut origin: Option<Coords> = None;
        let mut i: usize = 0;
        assert(cm@.cells =~= reap_cells(before.cells, self.entities@.take(0)));
        while i < n
            invariant
                self.wf(),
                cm.wf(),
                before.wf(),
                n == self.entities@.len(),
                i <= n,
                cm@.registered.contains(ComponentType::TTL),
                cm@.registered.contains(ComponentType::Coords),
                cm@.follows(before),
                cm@.cells == reap_cells(before.cells, self.entities@.take(i as int)),
                origin == burst_origin(before.cells, self.entities@.take(i as int)),
            decreases n - i,
        {
            let e = self.entities.get(i);
            let ghost mid = cm@;
            proof {
                lemma_take_next(self.entities@, i as int);
                assert(self.entities@.take(i + 1).drop_last() =~= self.entities@.take(i as int));
                assert(self.entities@.take(i + 1).last() == e);
            }
            match cm.get_ttl(e) {
                Some(t) => {
                    if t.ttl <= 1 {
                        cm.remove(e, ComponentType::TTL);
                        proof {
                            lemma_follows_remove(mid, e, ComponentType::TTL);
                            lemma_follows_trans(before, mid, cm@);
                        }
                        if origin.is_none() {
                            origin = cm.get_coords(e);
                        }
                    } else {
                        match cm.get_mut(e, ComponentType::TTL) {
                            Some(slot) => {
                                *slot = Component::TTL(TTL { ttl: t.ttl - 1 });
                            },
                            None => {},
                        }
                        assert(cm@.follows(mid));
                        proof {
                            lemma_follows_trans(before, mid, cm@);
                        }
                    }
                },
                None => {},
            }
            assert(cm@.cells =~= reap_cells(before.cells, self.entities@.take(i + 1)));
            i = i + 1;
        }
        assert(self.entities@.take(n as int) =~= self.entities@);
        match origin {
            Some(at) => Reaper::burst(at, &input.burst),
            None => CommandBuffer::new(),
        }
    }
}

} // verus!
