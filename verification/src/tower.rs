//! Towers: the timed search for the nearest target.

use crate::requests::{
    emitted, lemma_emitted_grows, lemma_emitted_holds, lemma_emitted_source,
};
use crate::sight::{nearest, nearest_target, row};
use crate::ticks::total;
use vstd::prelude::*;

verus! {

/// A tower.  Where it stands and where its muzzle is are the host's business;
/// here it is the time between two shots and the time gone by since the last.
///
/// A tower is *loading* while `fire_timer < fire_interval`.  It fires on the
/// tick that takes it from loading to its fire interval or beyond, and then
/// starts over from zero.  A tower that is not loading never fires: one with
/// a fire interval of zero, for example.
#[derive(Clone, Copy, Debug, PartialEq, Eq, Structural)]
pub struct Tower {
    /// The time between two shots, in nanoseconds.
    pub fire_interval: u64,
    /// The time accumulated since the tower was made or last fired, in
    /// nanoseconds.
    pub fire_timer: u64,
}

/// The request to spawn one projectile at the muzzle of a tower, aimed at a
/// target.  Both are named by their place: the tower's in the list of towers,
/// the target's in the tower's row of the sighting table.  The host spawns
/// the projectile after the passes of the tick, so that it flies from the next
/// tick on.
#[derive(Clone, Copy, Debug, PartialEq, Eq, Structural)]
pub struct Shot {
    pub tower: usize,
    pub target: usize,
}

impl Tower {
    /// Whether the tower fires on a tick of length `delta`: the accumulated
    /// time is below the fire interval before the tick and at or above it
    /// after.
    pub open spec fn fires(self, delta: u64) -> bool {
        self.fire_timer < self.fire_interval && self.fire_timer + delta >= self.fire_interval
    }

    /// The target that the tower shoots at on a tick of length `delta`, given
    /// the keys of the targets as seen from its muzzle: the nearest one, on
    /// the tick on which it fires.
    pub open spec fn aim(self, keys: Seq<u32>, delta: u64) -> Option<usize> {
        if self.fires(delta) {
            nearest(keys)
        } else {
            None
        }
    }

    /// The tower after a tick of length `delta`.
    pub open spec fn ticked(self, delta: u64) -> Tower {
        if self.fires(delta) {
            Tower { fire_timer: 0, ..self }
        } else if self.fire_timer < self.fire_interval {
            Tower { fire_timer: (self.fire_timer + delta) as u64, ..self }
        } else {
            self
        }
    }

    /// The tower after a run of ticks, first to last.
    pub open spec fn after(self, deltas: Seq<u64>) -> Tower
        decreases deltas.len(),
    {
        if deltas.len() == 0 {
            self
        } else {
            self.after(deltas.drop_last()).ticked(deltas.last())
        }
    }

    /// A tower that shoots every `fire_interval` nanoseconds, with no time
    /// accumulated yet.
    pub fn new(fire_interval: u64) -> (tower: Tower)
        ensures
            tower == (Tower { fire_interval, fire_timer: 0 }),
    {
        Tower { fire_interval, fire_timer: 0 }
    }

    /// Advances the time since the last shot by `delta` nanoseconds and says
    /// whether the tower fires on this tick.
    pub fn tick(&mut self, delta: u64) -> (fired: bool)
        ensures
            *final(self) == old(self).ticked(delta),
            fired == old(self).fires(delta),
    {
        if self.fire_timer >= self.fire_interval {
            false
        } else if delta >= self.fire_interval - self.fire_timer {
            self.fire_timer = 0;
            true
        } else {
            self.fire_timer = self.fire_timer + delta;
            false
        }
    }

    /// One tick of one tower.  Advances its time by `delta`; on the tick on
    /// which it fires, picks the nearest target from `keys`.  With no target
    /// in sight the tick only advances the time.
    pub fn shoot(&mut self, keys: &Vec<u32>, delta: u64) -> (target: Option<usize>)
        ensures
            *final(self) == old(self).ticked(delta),
            target == old(self).aim(keys@, delta),
    {
        if self.tick(delta) {
            nearest_target(keys)
        } else {
            None
        }
    }
}

/// What tower `i` asks for on a tick: a shot at the target it aims at.
pub open spec fn shot_of(towers: Seq<Tower>, sightings: Seq<Vec<u32>>, delta: u64) -> spec_fn(
    int,
) -> Option<Shot> {
    |i: int|
        match towers[i].aim(row(sightings, i), delta) {
            Some(target) => Some(Shot { tower: i as usize, target }),
            None => None,
        }
}

/// The shots of one tick, in the order of the towers.
pub open spec fn shots_of(towers: Seq<Tower>, sightings: Seq<Vec<u32>>, delta: u64) -> Seq<Shot> {
    emitted(towers.len(), shot_of(towers, sightings, delta))
}

/// One tick of all towers.  Row `i` of `sightings` holds the keys of the live
/// targets as seen from the muzzle of tower `i`.  The time of every tower
/// advances by `delta`; each tower that fires on this tick and that has a
/// target in sight asks for one shot at its nearest target.
pub fn tower_shooting(towers: &mut Vec<Tower>, sightings: &Vec<Vec<u32>>, delta: u64) -> (shots:
    Vec<Shot>)
    ensures
        final(towers).len() == old(towers).len(),
        forall|i: int|
            0 <= i < old(towers).len() ==> final(towers)[i] == old(towers)[i].ticked(delta),
        shots@ == shots_of(old(towers)@, sightings@, delta),
{
    let mut shots: Vec<Shot> = Vec::new();
    let nothing: Vec<u32> = Vec::new();
    let mut i: usize = 0;
    while i < towers.len()
        invariant
            i <= towers.len(),
            towers.len() == old(towers).len(),
            nothing@.len() == 0,
            forall|k: int| 0 <= k < i ==> towers[k] == old(towers)[k].ticked(delta),
            forall|k: int| i <= k < towers.len() ==> towers[k] == old(towers)[k],
            shots@ == emitted(i as nat, shot_of(old(towers)@, sightings@, delta)),
        decreases towers.len() - i,
    {
        let mut tower = towers[i];
        let keys = if i < sightings.len() {
            &sightings[i]
        } else {
            &nothing
        };
        let target = tower.shoot(keys, delta);
        towers.set(i, tower);
        if let Some(target) = target {
            shots.push(Shot { tower: i, target });
        }
        i += 1;
    }
    shots
}

/// As long as the accumulated time stays below the fire interval, a run of
/// ticks only adds up: the tower fires on no tick of the run.
pub proof fn law_quiet_below_interval(tower: Tower, deltas: Seq<u64>)
    requires
        tower.fire_timer + total(deltas) < tower.fire_interval,
    ensures
        tower.after(deltas) == (Tower {
            fire_timer: (tower.fire_timer + total(deltas)) as u64,
            ..tower
        }),
        forall|k: int|
            0 <= k < deltas.len() ==> !(#[trigger] tower.after(deltas.take(k))).fires(deltas[k]),
    decreases deltas.len(),
{
    if deltas.len() > 0 {
        let earlier = deltas.drop_last();
        law_quiet_below_interval(tower, earlier);
        assert forall|k: int| 0 <= k < deltas.len() implies !(#[trigger] tower.after(
            deltas.take(k),
        )).fires(deltas[k]) by {
            if k < earlier.len() {
                assert(deltas.take(k) == earlier.take(k));
            } else {
                assert(deltas.take(k) == earlier);
            }
        }
    }
}

/// The fire edge of a tower.  Take a run of ticks over which the time
/// accumulated since its last shot reaches the fire interval on the last tick
/// and not before, and let a target be in sight on that tick.  Then the tower
/// shoots on no tick before the last, and on the last it shoots once, at the
/// nearest target.  After that its time starts again from zero.
pub proof fn law_fire_edge(tower: Tower, deltas: Seq<u64>, sightings: Seq<Seq<u32>>)
    requires
        deltas.len() > 0,
        sightings.len() == deltas.len(),
        tower.fire_timer + total(deltas.drop_last()) < tower.fire_interval,
        tower.fire_timer + total(deltas) >= tower.fire_interval,
        sightings.last().len() > 0,
    ensures
        forall|k: int|
            0 <= k < deltas.len() - 1 ==> (#[trigger] tower.after(deltas.take(k))).aim(
                sightings[k],
                deltas[k],
            ) is None,
        tower.after(deltas.drop_last()).aim(sightings.last(), deltas.last()) == nearest(
            sightings.last(),
        ),
        nearest(sightings.last()) is Some,
        tower.after(deltas) == (Tower { fire_timer: 0, ..tower }),
{
    let earlier = deltas.drop_last();
    law_quiet_below_interval(tower, earlier);
    assert forall|k: int| 0 <= k < deltas.len() - 1 implies (#[trigger] tower.after(
        deltas.take(k),
    )).aim(sightings[k], deltas[k]) is None by {
        assert(deltas.take(k) == earlier.take(k));
    }
}

/// The shots of a tick stand in the order of the towers, one per tower at
/// most, and they are the shots of exactly the towers that aim at a target.
pub proof fn law_one_shot_per_aiming_tower(
    towers: Seq<Tower>,
    sightings: Seq<Vec<u32>>,
    delta: u64,
)
    requires
        towers.len() <= usize::MAX,
    ensures
        forall|a: int, b: int|
            0 <= a < b < shots_of(towers, sightings, delta).len() ==> (#[trigger] shots_of(
                towers,
                sightings,
                delta,
            )[a]).tower < (#[trigger] shots_of(towers, sightings, delta)[b]).tower,
        forall|k: int|
            0 <= k < shots_of(towers, sightings, delta).len() ==> {
                let shot = #[trigger] shots_of(towers, sightings, delta)[k];
                &&& shot.tower < towers.len()
                &&& towers[shot.tower as int].aim(row(sightings, shot.tower as int), delta) == Some(
                    shot.target,
                )
            },
        forall|i: int|
            0 <= i < towers.len() && (#[trigger] towers[i].aim(row(sightings, i), delta)) is Some
                ==> shots_of(towers, sightings, delta).contains(
                Shot { tower: i as usize, target: towers[i].aim(row(sightings, i), delta)->0 },
            ),
{
    let each = shot_of(towers, sightings, delta);
    let shots = shots_of(towers, sightings, delta);
    assert forall|a: int, b: int| 0 <= a < b < shots.len() implies (#[trigger] shots[a]).tower < (
    #[trigger] shots[b]).tower by {
        let i = lemma_emitted_source(a, towers.len(), each);
        let j = lemma_emitted_source(b, towers.len(), each);
        if j <= i {
            lemma_emitted_grows(j as nat, i as nat, each);
        }
    }
    assert forall|k: int| 0 <= k < shots.len() implies {
        let shot = #[trigger] shots[k];
        &&& shot.tower < towers.len()
        &&& towers[shot.tower as int].aim(row(sightings, shot.tower as int), delta) == Some(
            shot.target,
        )
    } by {
        let i = lemma_emitted_source(k, towers.len(), each);
    }
    assert forall|i: int|
        0 <= i < towers.len() && (#[trigger] towers[i].aim(row(sightings, i), delta)) is Some
        implies shots.contains(
        Shot { tower: i as usize, target: towers[i].aim(row(sightings, i), delta)->0 },
    ) by {
        lemma_emitted_holds(i, towers.len(), each);
    }
}

/// With no target in sight no tower shoots, whatever time it has
/// accumulated: so through any run of ticks without targets not one shot is
/// asked for.
pub proof fn law_no_target_no_shot(towers: Seq<Tower>, sightings: Seq<Vec<u32>>, delta: u64)
    requires
        forall|i: int| 0 <= i < towers.len() ==> (#[trigger] row(sightings, i)).len() == 0,
    ensures
        shots_of(towers, sightings, delta).len() == 0,
{
    let each = shot_of(towers, sightings, delta);
    if emitted(towers.len(), each).len() > 0 {
        let i = lemma_emitted_source(0, towers.len(), each);
        assert(row(sightings, i).len() == 0);
    }
}

} // verus!
