//! The angles a pole sees around it, and the two passes of a frame.

use crate::poles::{links_at, Chain, Neighbour, Pole};
use std::collections::HashMap;
use vstd::prelude::*;

verus! {

/// The angle that stands for what lies behind `link`: the angle of the pole
/// there; at an anchored end of the chain the angle of rest; at a free end
/// the pole's own angle.
pub open spec fn effective_angle<T>(
    link: Neighbour,
    anchored: bool,
    own: T,
    rest: T,
    angles: Map<u64, T>,
) -> T {
    match link {
        Neighbour::Pole(n) => angles[n],
        Neighbour::Empty => if anchored {
            rest
        } else {
            own
        },
    }
}

/// Whether a pole is the bottom-most of its chain, and whether it is the
/// top-most.
pub open spec fn edge_of(pole: Pole) -> (bool, bool) {
    (pole.below is Empty, pole.above is Empty)
}

/// The angle below a pole, its own angle and the angle above it, as the
/// wave torque takes them.
pub open spec fn triplet_of<T>(
    entity: u64,
    pole: Pole,
    anchor_bottom: bool,
    anchor_top: bool,
    rest: T,
    angles: Map<u64, T>,
) -> (T, T, T) {
    (
        effective_angle(pole.below, anchor_bottom, angles[entity], rest, angles),
        angles[entity],
        effective_angle(pole.above, anchor_top, angles[entity], rest, angles),
    )
}

/// Whether `angles` holds an angle for the pole behind `link`, if there is one.
pub open spec fn reaches<T>(link: Neighbour, angles: Map<u64, T>) -> bool {
    link matches Neighbour::Pole(n) ==> angles.contains_key(n)
}

/// Whether `angles` holds an angle for every pole of the chain `ids`.
pub open spec fn covers<T>(ids: Seq<u64>, angles: Map<u64, T>) -> bool {
    forall|i: int| 0 <= i < ids.len() ==> angles.contains_key(#[trigger] ids[i])
}

/// The snapshot that a list of readings gives: the angle of a pole is that
/// of the last reading taken of it.
pub open spec fn snapshot_of<T>(readings: Seq<(u64, T)>) -> Map<u64, T>
    decreases readings.len(),
{
    if readings.len() == 0 {
        Map::empty()
    } else {
        snapshot_of(readings.drop_last()).insert(readings.last().0, readings.last().1)
    }
}

/// The readings that pair each pole of `ids` with the angle at its place in `a`.
pub open spec fn readings_of<T>(ids: Seq<u64>, a: Seq<T>) -> Seq<(u64, T)> {
    Seq::new(ids.len(), |i: int| (ids[i], a[i]))
}

/// The triplet of the pole at place `i` written out by hand from the angles
/// `a` of the poles, bottom first: the angle one place down, the angle at
/// `i`, the angle one place up; where the chain ends, the angle of rest if
/// that end is anchored, else the angle at `i` again.
pub open spec fn hand_triplet<T>(
    a: Seq<T>,
    i: int,
    anchor_bottom: bool,
    anchor_top: bool,
    rest: T,
) -> (T, T, T) {
    (
        if i > 0 {
            a[i - 1]
        } else if anchor_bottom {
            rest
        } else {
            a[i]
        },
        a[i],
        if i < a.len() - 1 {
            a[i + 1]
        } else if anchor_top {
            rest
        } else {
            a[i]
        },
    )
}

/// Whether a pole is the bottom-most of its chain, and whether it is the
/// top-most.
pub fn edge(pole: &Pole) -> (ends: (bool, bool))
    ensures
        ends == edge_of(*pole),
{
    (
        match pole.below {
            Neighbour::Empty => true,
            Neighbour::Pole(_) => false,
        },
        match pole.above {
            Neighbour::Empty => true,
            Neighbour::Pole(_) => false,
        },
    )
}

/// The angle that a pole with the angle `own` takes for its neighbour behind
/// `link`, out of the snapshot `angles`.
pub fn neighbour_angle<T: Copy>(
    link: Neighbour,
    anchored: bool,
    own: T,
    rest: T,
    angles: &HashMap<u64, T>,
) -> (angle: T)
    requires
        reaches(link, angles@),
    ensures
        angle == effective_angle(link, anchored, own, rest, angles@),
{
    match link {
        Neighbour::Pole(n) => match angles.get(&n) {
            Some(found) => *found,
            None => vstd::pervasive::unreached(),
        },
        Neighbour::Empty => if anchored {
            rest
        } else {
            own
        },
    }
}

/// The angle below the pole `entity`, its own angle and the angle above it,
/// all read from the one snapshot `angles`.
pub fn neighbour_angles<T: Copy>(
    entity: u64,
    pole: &Pole,
    anchor_bottom: bool,
    anchor_top: bool,
    rest: T,
    angles: &HashMap<u64, T>,
) -> (triplet: (T, T, T))
    requires
        angles@.contains_key(entity),
        reaches(pole.below, angles@),
        reaches(pole.above, angles@),
    ensures
        triplet == triplet_of(entity, *pole, anchor_bottom, anchor_top, rest, angles@),
{
    let own = match angles.get(&entity) {
        Some(found) => *found,
        None => vstd::pervasive::unreached(),
    };
    (
        neighbour_angle(pole.below, anchor_bottom, own, rest, angles),
        own,
        neighbour_angle(pole.above, anchor_top, own, rest, angles),
    )
}

/// Collects the readings into a snapshot that maps each pole to its angle.
pub fn collect_angles<T: Copy>(readings: &Vec<(u64, T)>) -> (angles: HashMap<u64, T>)
    ensures
        angles@ == snapshot_of(readings@),
{
    let mut angles: HashMap<u64, T> = HashMap::new();
    let mut i: usize = 0;
    while i < readings.len()
        invariant
            i <= readings@.len(),
            angles@ == snapshot_of(readings@.take(i as int)),
        decreases readings@.len() - i,
    {
        let (entity, angle) = readings[i];
        angles.insert(entity, angle);
        proof {
            assert(readings@.take(i + 1).drop_last() =~= readings@.take(i as int));
        }
        i += 1;
    }
    proof {
        assert(readings@.take(i as int) =~= readings@);
    }
    angles
}

/// Whether `angles` holds an angle for every pole of the chain.
pub fn covered<T>(chain: &Chain, angles: &HashMap<u64, T>) -> (all: bool)
    ensures
        all == covers(chain@, angles@),
{
    let ids = chain.ids();
    let mut i: usize = 0;
    while i < ids.len()
        invariant
            ids@ == chain@,
            i <= ids@.len(),
            forall|j: int| 0 <= j < i ==> angles@.contains_key(#[trigger] ids@[j]),
        decreases ids@.len() - i,
    {
        if !angles.contains_key(&ids[i]) {
            return false;
        }
        i += 1;
    }
    true
}

/// The first pass of a frame. For every pole of the chain, `accelerate` is
/// given whether the pole is the bottom-most and the top-most, the three
/// angles around it out of the snapshot `angles`, and its angular velocity;
/// what it returns becomes the pole's angular velocity. No angle changes in
/// this pass, so every pole is given the angles from before the frame.
pub fn apply_torques<T: Copy, F: Fn((bool, bool), (T, T, T), T) -> T>(
    chain: &Chain,
    anchor_bottom: bool,
    anchor_top: bool,
    rest: T,
    angles: &HashMap<u64, T>,
    velocities: &mut Vec<T>,
    accelerate: F,
)
    requires
        covers(chain@, angles@),
        old(velocities)@.len() == chain@.len(),
        forall|i: int|
            0 <= i < chain@.len() ==> call_requires(
                accelerate,
                (
                    edge_of(links_at(chain@, i)),
                    triplet_of(
                        chain@[i],
                        links_at(chain@, i),
                        anchor_bottom,
                        anchor_top,
                        rest,
                        angles@,
                    ),
                    #[trigger] old(velocities)@[i],
                ),
            ),
    ensures
        final(velocities)@.len() == chain@.len(),
        forall|i: int|
            0 <= i < chain@.len() ==> call_ensures(
                accelerate,
                (
                    edge_of(links_at(chain@, i)),
                    triplet_of(
                        chain@[i],
                        links_at(chain@, i),
                        anchor_bottom,
                        anchor_top,
                        rest,
                        angles@,
                    ),
                    old(velocities)@[i],
                ),
                #[trigger] final(velocities)@[i],
            ),
{
    let ids = chain.ids();
    let n = ids.len();
    let mut i: usize = 0;
    while i < n
        invariant
            ids@ == chain@,
            n == chain@.len(),
            i <= n,
            covers(chain@, angles@),
            velocities@.len() == n,
            forall|j: int| i <= j < n ==> velocities@[j] == old(velocities)@[j],
            forall|j: int|
                0 <= j < n ==> call_requires(
                    accelerate,
                    (
                        edge_of(links_at(chain@, j)),
                        triplet_of(
                            chain@[j],
                            links_at(chain@, j),
                            anchor_bottom,
                            anchor_top,
                            rest,
                            angles@,
                        ),
                        #[trigger] old(velocities)@[j],
                    ),
                ),
            forall|j: int|
                0 <= j < i ==> call_ensures(
                    accelerate,
                    (
                        edge_of(links_at(chain@, j)),
                        triplet_of(
                            chain@[j],
                            links_at(chain@, j),
                            anchor_bottom,
                            anchor_top,
                            rest,
                            angles@,
                        ),
                        old(velocities)@[j],
                    ),
                    #[trigger] velocities@[j],
                ),
        decreases n - i,
    {
        let pole = chain.pole(i);
        proof {
            if i > 0 {
                assert(angles@.contains_key(chain@[i - 1]));
            }
            if i + 1 < n {
                assert(angles@.contains_key(chain@[i + 1]));
            }
            assert(angles@.contains_key(chain@[i as int]));
        }
        let triplet = neighbour_angles(ids[i], &pole, anchor_bottom, anchor_top, rest, angles);
        let velocity = velocities[i];
        assert(velocity == old(velocities)@[i as int]);
        let renewed = accelerate(edge(&pole), triplet, velocity);
        velocities.set(i, renewed);
        i += 1;
    }
}

/// The second pass of a frame. For every pole, `turn` is given the pole's
/// angle and its angular velocity; what it returns becomes the pole's angle.
pub fn apply_angular_velocities<T: Copy, G: Fn(T, T) -> T>(
    angles: &mut Vec<T>,
    velocities: &Vec<T>,
    turn: G,
)
    requires
        old(angles)@.len() == velocities@.len(),
        forall|i: int|
            0 <= i < velocities@.len() ==> call_requires(
                turn,
                (#[trigger] old(angles)@[i], velocities@[i]),
            ),
    ensures
        final(angles)@.len() == velocities@.len(),
        forall|i: int|
            0 <= i < velocities@.len() ==> call_ensures(
                turn,
                (old(angles)@[i], velocities@[i]),
                #[trigger] final(angles)@[i],
            ),
{
    let n = velocities.len();
    let mut i: usize = 0;
    while i < n
        invariant
            n == velocities@.len(),
            i <= n,
            angles@.len() == n,
            forall|j: int| i <= j < n ==> angles@[j] == old(angles)@[j],
            forall|j: int|
                0 <= j < n ==> call_requires(turn, (#[trigger] old(angles)@[j], velocities@[j])),
            forall|j: int|
                0 <= j < i ==> call_ensures(
                    turn,
                    (old(angles)@[j], velocities@[j]),
                    #[trigger] angles@[j],
                ),
        decreases n - i,
    {
        let angle = angles[i];
        assert(angle == old(angles)@[i as int]);
        let turned = turn(angle, velocities[i]);
        angles.set(i, turned);
        i += 1;
    }
}

/// One frame. A snapshot of all angles is taken first. In the first pass
/// `accelerate` renews the angular velocity of every pole from that
/// snapshot; in the second pass `turn` renews the angle of every pole from
/// the angle it had and the angular velocity it has just been given.
pub fn frame<T: Copy, F: Fn((bool, bool), (T, T, T), T) -> T, G: Fn(T, T) -> T>(
    chain: &Chain,
    anchor_bottom: bool,
    anchor_top: bool,
    rest: T,
    angles: &mut Vec<T>,
    velocities: &mut Vec<T>,
    accelerate: F,
    turn: G,
)
    requires
        old(angles)@.len() == chain@.len(),
        old(velocities)@.len() == chain@.len(),
        forall|i: int|
            0 <= i < chain@.len() ==> call_requires(
                accelerate,
                (
                    edge_of(links_at(chain@, i)),
                    hand_triplet(old(angles)@, i, anchor_bottom, anchor_top, rest),
                    #[trigger] old(velocities)@[i],
                ),
            ),
        forall|i: int, renewed: T|
            0 <= i < chain@.len() && call_ensures(
                accelerate,
                (
                    edge_of(links_at(chain@, i)),
                    hand_triplet(old(angles)@, i, anchor_bottom, anchor_top, rest),
                    old(velocities)@[i],
                ),
                renewed,
            ) ==> #[trigger] call_requires(turn, (old(angles)@[i], renewed)),
    ensures
        final(angles)@.len() == chain@.len(),
        final(velocities)@.len() == chain@.len(),
        forall|i: int|
            0 <= i < chain@.len() ==> call_ensures(
                accelerate,
                (
                    edge_of(links_at(chain@, i)),
                    hand_triplet(old(angles)@, i, anchor_bottom, anchor_top, rest),
                    old(velocities)@[i],
                ),
                #[trigger] final(velocities)@[i],
            ),
        forall|i: int|
            0 <= i < chain@.len() ==> call_ensures(
                turn,
                (old(angles)@[i], final(velocities)@[i]),
                #[trigger] final(angles)@[i],
            ),
{
    let ids = chain.ids();
    let n = ids.len();
    let mut readings: Vec<(u64, T)> = Vec::new();
    let mut i: usize = 0;
    while i < n
        invariant
            ids@ == chain@,
            n == chain@.len(),
            angles@ == old(angles)@,
            angles@.len() == n,
            i <= n,
            readings@.len() == i,
            forall|j: int| 0 <= j < i ==> readings@[j] == (ids@[j], angles@[j]),
        decreases n - i,
    {
        readings.push((ids[i], angles[i]));
        i += 1;
    }
    assert(readings@ =~= readings_of(chain@, angles@));
    let snapshot = collect_angles(&readings);
    proof {
        assert forall|j: int| 0 <= j < n implies triplet_of(
            chain@[j],
            #[trigger] links_at(chain@, j),
            anchor_bottom,
            anchor_top,
            rest,
            snapshot@,
        ) == hand_triplet(angles@, j, anchor_bottom, anchor_top, rest) by {
            lemma_triplet_by_place(chain@, angles@, j, anchor_bottom, anchor_top, rest);
        }
        lemma_triplet_by_place(chain@, angles@, 0, anchor_bottom, anchor_top, rest);
    }
    apply_torques(chain, anchor_bottom, anchor_top, rest, &snapshot, velocities, accelerate);
    apply_angular_velocities(angles, velocities, turn);
}

/// At a free end of the chain a pole sees its own angle, whatever the
/// snapshot holds; at an anchored end it sees the angle of rest.
pub proof fn lemma_end_of_chain<T>(anchored: bool, own: T, rest: T, angles: Map<u64, T>)
    ensures
        !anchored ==> effective_angle(Neighbour::Empty, anchored, own, rest, angles) == own,
        anchored ==> effective_angle(Neighbour::Empty, anchored, own, rest, angles) == rest,
{
}

/// A snapshot holds an angle for exactly the poles of which a reading was
/// taken.
pub proof fn lemma_snapshot_domain<T>(readings: Seq<(u64, T)>, entity: u64)
    ensures
        snapshot_of(readings).contains_key(entity) <==> exists|i: int|
            0 <= i < readings.len() && (#[trigger] readings[i]).0 == entity,
    decreases readings.len(),
{
    if readings.len() > 0 {
        let before = readings.drop_last();
        lemma_snapshot_domain(before, entity);
        if snapshot_of(readings).contains_key(entity) {
            if readings.last().0 == entity {
                assert(readings[readings.len() - 1].0 == entity);
            } else {
                let i = choose|i: int| 0 <= i < before.len() && (#[trigger] before[i]).0 == entity;
                assert(readings[i].0 == entity);
            }
        }
        if exists|i: int| 0 <= i < readings.len() && (#[trigger] readings[i]).0 == entity {
            let i = choose|i: int| 0 <= i < readings.len() && (#[trigger] readings[i]).0 == entity;
            if i < before.len() {
                assert(before[i].0 == entity);
            }
        }
    }
}

/// In a snapshot the angle of a pole is that of the last reading taken of it.
pub proof fn lemma_snapshot_last_reading<T>(readings: Seq<(u64, T)>, i: int)
    requires
        0 <= i < readings.len(),
        forall|j: int| i < j < readings.len() ==> (#[trigger] readings[j]).0 != readings[i].0,
    ensures
        snapshot_of(readings).contains_key(readings[i].0),
        snapshot_of(readings)[readings[i].0] == readings[i].1,
    decreases readings.len(),
{
    if i < readings.len() - 1 {
        let before = readings.drop_last();
        assert(before[i] == readings[i]);
        assert forall|j: int| i < j < before.len() implies (#[trigger] before[j]).0
            != before[i].0 by {
            assert(before[j] == readings[j]);
        }
        lemma_snapshot_last_reading(before, i);
        assert(readings[readings.len() - 1].0 != readings[i].0);
    }
}

/// When one reading is taken of every pole of a chain, the three angles
/// around the pole at place `i` are those written out by hand from the
/// angles in spatial order.
pub proof fn lemma_triplet_by_place<T>(
    ids: Seq<u64>,
    a: Seq<T>,
    i: int,
    anchor_bottom: bool,
    anchor_top: bool,
    rest: T,
)
    requires
        ids.no_duplicates(),
        a.len() == ids.len(),
        0 <= i < ids.len(),
    ensures
        covers(ids, snapshot_of(readings_of(ids, a))),
        triplet_of(
            ids[i],
            links_at(ids, i),
            anchor_bottom,
            anchor_top,
            rest,
            snapshot_of(readings_of(ids, a)),
        ) == hand_triplet(a, i, anchor_bottom, anchor_top, rest),
{
    let readings = readings_of(ids, a);
    assert forall|j: int| 0 <= j < ids.len() implies snapshot_of(readings).contains_key(
        #[trigger] ids[j],
    ) && snapshot_of(readings)[ids[j]] == a[j] by {
        assert forall|k: int| j < k < readings.len() implies (#[trigger] readings[k]).0
            != readings[j].0 by {
            assert(ids[k] != ids[j]);
        }
        lemma_snapshot_last_reading(readings, j);
    }
    if i > 0 {
        assert(snapshot_of(readings)[ids[i - 1]] == a[i - 1]);
    }
    if i < ids.len() - 1 {
        assert(snapshot_of(readings)[ids[i + 1]] == a[i + 1]);
    }
    assert(snapshot_of(readings)[ids[i]] == a[i]);
}

/// A pole that has a pole below it and a pole above it is at neither end,
/// and the three angles around it are the angle of the pole below, its own
/// and the angle of the pole above: neither the anchors nor the angle of
/// rest have a part in them.
pub proof fn lemma_inner_pole_ignores_anchors<T>(
    ids: Seq<u64>,
    a: Seq<T>,
    i: int,
    anchor_bottom: bool,
    anchor_top: bool,
    rest: T,
)
    requires
        ids.no_duplicates(),
        a.len() == ids.len(),
        0 < i < ids.len() - 1,
    ensures
        edge_of(links_at(ids, i)) == (false, false),
        triplet_of(
            ids[i],
            links_at(ids, i),
            anchor_bottom,
            anchor_top,
            rest,
            snapshot_of(readings_of(ids, a)),
        ) == (a[i - 1], a[i], a[i + 1]),
{
    lemma_triplet_by_place(ids, a, i, anchor_bottom, anchor_top, rest);
}

} // verus!
