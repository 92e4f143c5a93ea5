//! Projectiles: collision with targets, expiry of lifetimes, and the one
//! removal that ends each projectile.

use crate::requests::{
    emitted, lemma_emitted_grows, lemma_emitted_holds, lemma_emitted_places, lemma_emitted_source,
};
use crate::sight::{any_within, first_hit, first_within, row};
use crate::ticks::total;
use vstd::prelude::*;

verus! {

/// The hit radius as a key: the bit pattern of the single-precision number
/// 0.2.  A projectile hits a target whose key is strictly below it.
pub const HIT_RADIUS: u32 = 0x3E4C_CCCD;

/// The hit points that one hit takes from the health of its target.
pub const DAMAGE: u32 = 1;

/// The countdown after which an entity is removed.  It runs out on the tick
/// that takes it from above zero to zero, once; a countdown at zero stays
/// there.
#[derive(Clone, Copy, Debug, PartialEq, Eq, Structural)]
pub struct Lifetime {
    /// The time still to go, in nanoseconds.
    pub remaining: u64,
}

/// Where a projectile is in its life.  It is `Live` from the tick after the
/// shot that spawned it.  `Hit` and `Expired` are final: a projectile that has
/// left `Live` is never looked at again.
#[derive(Clone, Copy, Debug, PartialEq, Eq, Structural)]
pub enum ProjectileState {
    /// In flight.
    Live,
    /// Removed because it hit a target.
    Hit,
    /// Removed because its lifetime ran out.
    Expired,
}

/// A projectile.  Its position and its direction of flight stay with the
/// host; here it is a lifetime and a state.
#[derive(Clone, Copy, Debug, PartialEq, Eq, Structural)]
pub struct Projectile {
    pub lifetime: Lifetime,
    pub state: ProjectileState,
}

/// The request to take `DAMAGE` hit points from the health of a target, for
/// the projectile that hit it.  Both are named by their place: the
/// projectile's in the list of projectiles, the target's in the projectile's
/// row of the sighting table.
#[derive(Clone, Copy, Debug, PartialEq, Eq, Structural)]
pub struct Impact {
    pub bullet: usize,
    pub target: usize,
}

/// What one tick of the projectile systems asks of the host.
#[derive(Debug, PartialEq, Eq)]
pub struct TickOutcome {
    /// The hits of the tick, in the order of the projectiles.
    pub impacts: Vec<Impact>,
    /// The projectiles to remove, each with all that is attached to it, in
    /// the order of the projectiles: those that hit and those that expired.
    pub despawned: Vec<usize>,
}

/// The projectile systems of a tick: collision first, then expiry.
#[derive(Clone, Copy, Debug, Default)]
pub struct BulletPlugin;

impl Lifetime {
    /// Whether the lifetime runs out on a tick of length `delta`: time
    /// remains before the tick and none after.
    pub open spec fn runs_out(self, delta: u64) -> bool {
        0 < self.remaining <= delta
    }

    /// The lifetime after a tick of length `delta`.
    pub open spec fn ticked(self, delta: u64) -> Lifetime {
        if delta >= self.remaining {
            Lifetime { remaining: 0 }
        } else {
            Lifetime { remaining: (self.remaining - delta) as u64 }
        }
    }

    /// A lifetime of `nanos` nanoseconds, none of them used up yet.
    pub fn new(nanos: u64) -> (lifetime: Lifetime)
        ensures
            lifetime == (Lifetime { remaining: nanos }),
    {
        Lifetime { remaining: nanos }
    }

    /// Takes `delta` nanoseconds off the lifetime and says whether it runs
    /// out on this tick.
    pub fn tick(&mut self, delta: u64) -> (over: bool)
        ensures
            *final(self) == old(self).ticked(delta),
            over == old(self).runs_out(delta),
    {
        if delta >= self.remaining {
            let over = self.remaining > 0;
            self.remaining = 0;
            over
        } else {
            self.remaining = self.remaining - delta;
            false
        }
    }
}

impl Projectile {
    /// The target that the projectile hits, given the keys of the targets as
    /// seen from it: the first one within the hit radius, if it is in flight.
    pub open spec fn strikes(self, keys: Seq<u32>) -> Option<usize> {
        if self.state == ProjectileState::Live {
            first_within(keys, HIT_RADIUS)
        } else {
            None
        }
    }

    /// The projectile after the collision pass of a tick.
    pub open spec fn collided(self, keys: Seq<u32>) -> Projectile {
        if self.strikes(keys) is Some {
            Projectile { state: ProjectileState::Hit, ..self }
        } else {
            self
        }
    }

    /// Whether the projectile expires on a tick of length `delta`: it is in
    /// flight and its lifetime runs out.
    pub open spec fn expires(self, delta: u64) -> bool {
        self.state == ProjectileState::Live && self.lifetime.runs_out(delta)
    }

    /// The projectile after the expiry pass of a tick of length `delta`.
    pub open spec fn aged(self, delta: u64) -> Projectile {
        if self.state == ProjectileState::Live {
            Projectile {
                lifetime: self.lifetime.ticked(delta),
                state: if self.lifetime.runs_out(delta) {
                    ProjectileState::Expired
                } else {
                    ProjectileState::Live
                },
            }
        } else {
            self
        }
    }

    /// The projectile after a whole tick: collision, then expiry.
    pub open spec fn stepped(self, keys: Seq<u32>, delta: u64) -> Projectile {
        self.collided(keys).aged(delta)
    }

    /// Whether the projectile is removed on a tick: it is in flight before
    /// the tick and not after.
    pub open spec fn leaves(self, keys: Seq<u32>, delta: u64) -> bool {
        self.state == ProjectileState::Live && self.stepped(keys, delta).state
            != ProjectileState::Live
    }

    /// The projectile after a run of ticks, each given by the keys of the
    /// targets on that tick and by its length.
    pub open spec fn after(self, ticks: Seq<(Seq<u32>, u64)>) -> Projectile
        decreases ticks.len(),
    {
        if ticks.len() == 0 {
            self
        } else {
            self.after(ticks.drop_last()).stepped(ticks.last().0, ticks.last().1)
        }
    }

    /// On how many ticks of a run the projectile hits a target.
    pub open spec fn hits_in(self, ticks: Seq<(Seq<u32>, u64)>) -> nat
        decreases ticks.len(),
    {
        if ticks.len() == 0 {
            0
        } else {
            let before = self.after(ticks.drop_last());
            let hit: nat = if before.strikes(ticks.last().0) is Some {
                1
            } else {
                0
            };
            self.hits_in(ticks.drop_last()) + hit
        }
    }

    /// On how many ticks of a run the projectile is removed.
    pub open spec fn removals_in(self, ticks: Seq<(Seq<u32>, u64)>) -> nat
        decreases ticks.len(),
    {
        if ticks.len() == 0 {
            0
        } else {
            let before = self.after(ticks.drop_last());
            let removed: nat = if before.leaves(ticks.last().0, ticks.last().1) {
                1
            } else {
                0
            };
            self.removals_in(ticks.drop_last()) + removed
        }
    }

    /// A projectile in flight that lives for `lifetime` nanoseconds.
    pub fn new(lifetime: u64) -> (projectile: Projectile)
        ensures
            projectile == (Projectile {
                lifetime: Lifetime { remaining: lifetime },
                state: ProjectileState::Live,
            }),
    {
        Projectile { lifetime: Lifetime::new(lifetime), state: ProjectileState::Live }
    }

    /// The collision pass for one projectile.  A projectile in flight hits
    /// the first target within the hit radius and is then no longer in flight;
    /// the target is returned.  Any other projectile is left as it is.
    pub fn collide(&mut self, keys: &Vec<u32>) -> (target: Option<usize>)
        ensures
            *final(self) == old(self).collided(keys@),
            target == old(self).strikes(keys@),
    {
        match self.state {
            ProjectileState::Live => {
                let target = first_hit(keys, HIT_RADIUS);
                if target.is_some() {
                    self.state = ProjectileState::Hit;
                }
                target
            },
            _ => None,
        }
    }

    /// The expiry pass for one projectile.  The lifetime of a projectile in
    /// flight goes down by `delta`; on the tick on which it runs out the
    /// projectile is no longer in flight, and `true` is returned.  Any other
    /// projectile is left as it is.
    pub fn age(&mut self, delta: u64) -> (expired: bool)
        ensures
            *final(self) == old(self).aged(delta),
            expired == old(self).expires(delta),
    {
        match self.state {
            ProjectileState::Live => {
                let expired = self.lifetime.tick(delta);
                if expired {
                    self.state = ProjectileState::Expired;
                }
                expired
            },
            _ => false,
        }
    }
}

/// What projectile `i` asks for in the collision pass: damage to the target
/// that it hits.
pub open spec fn impact_of(bullets: Seq<Projectile>, sightings: Seq<Vec<u32>>) -> spec_fn(
    int,
) -> Option<Impact> {
    |i: int|
        match bullets[i].strikes(row(sightings, i)) {
            Some(target) => Some(Impact { bullet: i as usize, target }),
            None => None,
        }
}

/// The hits of one tick, in the order of the projectiles.
pub open spec fn impacts_of(bullets: Seq<Projectile>, sightings: Seq<Vec<u32>>) -> Seq<Impact> {
    emitted(bullets.len(), impact_of(bullets, sightings))
}

/// What projectile `i` asks for in the expiry pass: its own removal, if its
/// lifetime runs out.
pub open spec fn expiry_of(bullets: Seq<Projectile>, delta: u64) -> spec_fn(int) -> Option<usize> {
    |i: int|
        if bullets[i].expires(delta) {
            Some(i as usize)
        } else {
            None
        }
}

/// The projectiles whose lifetime runs out on a tick, in their order.
pub open spec fn expired_of(bullets: Seq<Projectile>, delta: u64) -> Seq<usize> {
    emitted(bullets.len(), expiry_of(bullets, delta))
}

/// What projectile `i` asks for over a whole tick: its own removal, if it hits
/// a target or its lifetime runs out.
pub open spec fn removal_of(bullets: Seq<Projectile>, sightings: Seq<Vec<u32>>, delta: u64)
    -> spec_fn(int) -> Option<usize> {
    |i: int|
        if bullets[i].leaves(row(sightings, i), delta) {
            Some(i as usize)
        } else {
            None
        }
}

/// The projectiles that are removed on a tick, in their order.
pub open spec fn removed_of(bullets: Seq<Projectile>, sightings: Seq<Vec<u32>>, delta: u64) -> Seq<
    usize,
> {
    emitted(bullets.len(), removal_of(bullets, sightings, delta))
}

/// The collision pass.  Row `i` of `sightings` holds the keys of the live
/// targets as seen from projectile `i`.  Each projectile in flight with a
/// target within the hit radius hits the first such target, once, and is then
/// no longer in flight.  The hits are returned; for each the host takes the
/// damage from the target's health and removes the projectile.
pub fn bullet_collision(bullets: &mut Vec<Projectile>, sightings: &Vec<Vec<u32>>) -> (impacts: Vec<
    Impact,
>)
    ensures
        final(bullets).len() == old(bullets).len(),
        forall|i: int|
            0 <= i < old(bullets).len() ==> final(bullets)[i] == old(bullets)[i].collided(
                row(sightings@, i),
            ),
        impacts@ == impacts_of(old(bullets)@, sightings@),
{
    let mut impacts: Vec<Impact> = Vec::new();
    let nothing: Vec<u32> = Vec::new();
    let mut i: usize = 0;
    while i < bullets.len()
        invariant
            i <= bullets.len(),
            bullets.len() == old(bullets).len(),
            nothing@.len() == 0,
            forall|k: int|
                0 <= k < i ==> bullets[k] == old(bullets)[k].collided(row(sightings@, k)),
            forall|k: int| i <= k < bullets.len() ==> bullets[k] == old(bullets)[k],
            impacts@ == emitted(i as nat, impact_of(old(bullets)@, sightings@)),
        decreases bullets.len() - i,
    {
        let mut bullet = bullets[i];
        let keys = if i < sightings.len() {
            &sightings[i]
        } else {
            &nothing
        };
        let struck = bullet.collide(keys);
        bullets.set(i, bullet);
        if let Some(target) = struck {
            impacts.push(Impact { bullet: i, target });
        }
        i += 1;
    }
    impacts
}

/// The expiry pass.  The lifetime of each projectile in flight goes down by
/// `delta`.  A projectile whose lifetime runs out on this tick is no longer in
/// flight, and its place in the list is returned: the host removes it, with
/// all that is attached to it.
pub fn bullet_despawn(bullets: &mut Vec<Projectile>, delta: u64) -> (despawned: Vec<usize>)
    ensures
        final(bullets).len() == old(bullets).len(),
        forall|i: int|
            0 <= i < old(bullets).len() ==> final(bullets)[i] == old(bullets)[i].aged(delta),
        despawned@ == expired_of(old(bullets)@, delta),
{
    let mut despawned: Vec<usize> = Vec::new();
    let mut i: usize = 0;
    while i < bullets.len()
        invariant
            i <= bullets.len(),
            bullets.len() == old(bullets).len(),
            forall|k: int| 0 <= k < i ==> bullets[k] == old(bullets)[k].aged(delta),
            forall|k: int| i <= k < bullets.len() ==> bullets[k] == old(bullets)[k],
            despawned@ == emitted(i as nat, expiry_of(old(bullets)@, delta)),
        decreases bullets.len() - i,
    {
        let mut bullet = bullets[i];
        let expired = bullet.age(delta);
        bullets.set(i, bullet);
        if expired {
            despawned.push(i);
        }
        i += 1;
    }
    despawned
}

impl BulletPlugin {
    /// One tick of the projectile systems: for each projectile the collision
    /// pass, then the expiry pass.  A projectile that hits a target on this
    /// tick is removed for the hit, whatever its lifetime says.  The outcome
    /// names each hit and, once, each projectile to remove.
    pub fn update(
        &self,
        bullets: &mut Vec<Projectile>,
        sightings: &Vec<Vec<u32>>,
        delta: u64,
    ) -> (outcome: TickOutcome)
        ensures
            final(bullets).len() == old(bullets).len(),
            forall|i: int|
                0 <= i < old(bullets).len() ==> final(bullets)[i] == old(bullets)[i].stepped(
                    row(sightings@, i),
                    delta,
                ),
            outcome.impacts@ == impacts_of(old(bullets)@, sightings@),
            outcome.despawned@ == removed_of(old(bullets)@, sightings@, delta),
    {
        let mut impacts: Vec<Impact> = Vec::new();
        let mut despawned: Vec<usize> = Vec::new();
        let nothing: Vec<u32> = Vec::new();
        let mut i: usize = 0;
        while i < bullets.len()
            invariant
                i <= bullets.len(),
                bullets.len() == old(bullets).len(),
                nothing@.len() == 0,
                forall|k: int|
                    0 <= k < i ==> bullets[k] == old(bullets)[k].stepped(
                        row(sightings@, k),
                        delta,
                    ),
                forall|k: int| i <= k < bullets.len() ==> bullets[k] == old(bullets)[k],
                impacts@ == emitted(i as nat, impact_of(old(bullets)@, sightings@)),
                despawned@ == emitted(i as nat, removal_of(old(bullets)@, sightings@, delta)),
            decreases bullets.len() - i,
        {
            let mut bullet = bullets[i];
            let keys = if i < sightings.len() {
                &sightings[i]
            } else {
                &nothing
            };
            let struck = bullet.collide(keys);
            let expired = bullet.age(delta);
            bullets.set(i, bullet);
            if let Some(target) = struck {
                impacts.push(Impact { bullet: i, target });
                despawned.push(i);
            } else if expired {
                despawned.push(i);
            }
            i += 1;
        }
        TickOutcome { impacts, despawned }
    }
}

/// The lengths of the ticks of a run.
pub open spec fn lengths(ticks: Seq<(Seq<u32>, u64)>) -> Seq<u64> {
    ticks.map_values(|tick: (Seq<u32>, u64)| tick.1)
}

/// A lifetime runs out once: after the tick on which it runs out nothing is
/// left of it, and no later tick finds it running out again.
pub proof fn law_lifetime_runs_out_once(lifetime: Lifetime, delta: u64, later: u64)
    requires
        lifetime.runs_out(delta),
    ensures
        lifetime.ticked(delta) == (Lifetime { remaining: 0 }),
        !lifetime.ticked(delta).runs_out(later),
        lifetime.ticked(delta).ticked(later) == lifetime.ticked(delta),
{
}

/// A hit wins over the end of the lifetime: a projectile in flight with a
/// target within the hit radius ends the tick as `Hit`, with its lifetime
/// untouched, and is removed once, whatever the length of the tick.
pub proof fn law_hit_takes_precedence(bullet: Projectile, keys: Seq<u32>, delta: u64)
    requires
        bullet.strikes(keys) is Some,
    ensures
        bullet.stepped(keys, delta) == (Projectile { state: ProjectileState::Hit, ..bullet }),
        !bullet.collided(keys).expires(delta),
        bullet.leaves(keys, delta),
{
}

/// A projectile is removed on a tick in one of two ways and never in both:
/// it hits a target, or it hits none and its lifetime runs out.
pub proof fn law_one_way_out(bullet: Projectile, keys: Seq<u32>, delta: u64)
    ensures
        bullet.leaves(keys, delta) <==> bullet.strikes(keys) is Some || bullet.collided(
            keys,
        ).expires(delta),
        !(bullet.strikes(keys) is Some && bullet.collided(keys).expires(delta)),
        bullet.collided(keys).expires(delta) <==> bullet.strikes(keys) is None && bullet.expires(
            delta,
        ),
        bullet.stepped(keys, delta).state == ProjectileState::Expired && bullet.state
            == ProjectileState::Live ==> bullet.expires(delta),
{
}

/// A projectile that is no longer in flight is left alone: it hits nothing,
/// it does not age, and no second removal is asked for.
pub proof fn law_removed_stays_removed(bullet: Projectile, ticks: Seq<(Seq<u32>, u64)>)
    requires
        bullet.state != ProjectileState::Live,
    ensures
        bullet.after(ticks) == bullet,
        bullet.hits_in(ticks) == 0,
        bullet.removals_in(ticks) == 0,
    decreases ticks.len(),
{
    if ticks.len() > 0 {
        law_removed_stays_removed(bullet, ticks.drop_last());
    }
}

/// Over any run of ticks a projectile hits once at most, however long it
/// stays within the hit radius of a target, and it is removed once at most:
/// by the tick on which it hits, or by the tick on which its lifetime runs
/// out.  Once either has happened it is no longer in flight.
pub proof fn law_single_hit(bullet: Projectile, ticks: Seq<(Seq<u32>, u64)>)
    ensures
        bullet.hits_in(ticks) <= bullet.removals_in(ticks) <= 1,
        bullet.removals_in(ticks) == 1 && bullet.state == ProjectileState::Live
            ==> bullet.after(ticks).state != ProjectileState::Live,
        bullet.hits_in(ticks) == 1 ==> bullet.after(ticks).state == ProjectileState::Hit,
        bullet.removals_in(ticks) == 0 ==> bullet.after(ticks).state == bullet.state,
    decreases ticks.len(),
{
    if bullet.state != ProjectileState::Live {
        law_removed_stays_removed(bullet, ticks);
    } else if ticks.len() > 0 {
        law_single_hit(bullet, ticks.drop_last());
    }
}

/// The end of a lifetime.  Take a projectile in flight and a run of ticks on
/// which no target comes within the hit radius, and let the ticks add up to
/// its lifetime on the last tick and not before.  Then the projectile is in
/// flight before every tick of the run, and it is removed on the last, as
/// `Expired`.
pub proof fn law_expiry_edge(bullet: Projectile, ticks: Seq<(Seq<u32>, u64)>)
    requires
        bullet.state == ProjectileState::Live,
        ticks.len() > 0,
        forall|k: int| 0 <= k < ticks.len() ==> !any_within((#[trigger] ticks[k]).0, HIT_RADIUS),
        total(lengths(ticks.drop_last())) < bullet.lifetime.remaining <= total(lengths(ticks)),
    ensures
        forall|k: int|
            0 <= k < ticks.len() ==> (#[trigger] bullet.after(ticks.take(k))).state
                == ProjectileState::Live,
        bullet.after(ticks.drop_last()).expires(ticks.last().1),
        bullet.after(ticks).state == ProjectileState::Expired,
        bullet.removals_in(ticks) == 1,
        bullet.hits_in(ticks) == 0,
{
    let earlier = ticks.drop_last();
    lemma_quiet_flight(bullet, earlier);
    assert(lengths(earlier) == lengths(ticks).drop_last());
    assert forall|k: int| 0 <= k < ticks.len() implies (#[trigger] bullet.after(
        ticks.take(k),
    )).state == ProjectileState::Live by {
        if k < earlier.len() {
            assert(ticks.take(k) == earlier.take(k));
        }
    }
}

/// While no target comes within the hit radius and the lifetime has not run
/// out, a projectile stays in flight and its lifetime only goes down.
proof fn lemma_quiet_flight(bullet: Projectile, ticks: Seq<(Seq<u32>, u64)>)
    requires
        bullet.state == ProjectileState::Live,
        forall|k: int| 0 <= k < ticks.len() ==> !any_within((#[trigger] ticks[k]).0, HIT_RADIUS),
        total(lengths(ticks)) < bullet.lifetime.remaining,
    ensures
        bullet.after(ticks) == (Projectile {
            lifetime: Lifetime {
                remaining: (bullet.lifetime.remaining - total(lengths(ticks))) as u64,
            },
            state: ProjectileState::Live,
        }),
        forall|k: int|
            0 <= k < ticks.len() ==> (#[trigger] bullet.after(ticks.take(k))).state
                == ProjectileState::Live,
        bullet.hits_in(ticks) == 0,
        bullet.removals_in(ticks) == 0,
    decreases ticks.len(),
{
    if ticks.len() > 0 {
        let earlier = ticks.drop_last();
        assert(lengths(earlier) == lengths(ticks).drop_last());
        lemma_quiet_flight(bullet, earlier);
        assert forall|k: int| 0 <= k < ticks.len() implies (#[trigger] bullet.after(
            ticks.take(k),
        )).state == ProjectileState::Live by {
            if k < earlier.len() {
                assert(ticks.take(k) == earlier.take(k));
            }
        }
    }
}

/// The hits of a tick stand in the order of the projectiles, one per
/// projectile at most; they are the hits of exactly the projectiles that
/// strike a target, and each of those projectiles is among the removed.
pub proof fn law_one_impact_per_bullet(
    bullets: Seq<Projectile>,
    sightings: Seq<Vec<u32>>,
    delta: u64,
)
    requires
        bullets.len() <= usize::MAX,
    ensures
        forall|a: int, b: int|
            0 <= a < b < impacts_of(bullets, sightings).len() ==> (#[trigger] impacts_of(
                bullets,
                sightings,
            )[a]).bullet < (#[trigger] impacts_of(bullets, sightings)[b]).bullet,
        forall|k: int|
            0 <= k < impacts_of(bullets, sightings).len() ==> {
                let impact = #[trigger] impacts_of(bullets, sightings)[k];
                &&& impact.bullet < bullets.len()
                &&& bullets[impact.bullet as int].strikes(row(sightings, impact.bullet as int))
                    == Some(impact.target)
                &&& removed_of(bullets, sightings, delta).contains(impact.bullet)
            },
        forall|i: int|
            0 <= i < bullets.len() && (#[trigger] bullets[i].strikes(row(sightings, i))) is Some
                ==> impacts_of(bullets, sightings).contains(
                Impact { bullet: i as usize, target: bullets[i].strikes(row(sightings, i))->0 },
            ),
{
    let each = impact_of(bullets, sightings);
    let impacts = impacts_of(bullets, sightings);
    assert forall|a: int, b: int| 0 <= a < b < impacts.len() implies (#[trigger] impacts[a]).bullet
        < (#[trigger] impacts[b]).bullet by {
        let i = lemma_emitted_source(a, bullets.len(), each);
        let j = lemma_emitted_source(b, bullets.len(), each);
        if j <= i {
            lemma_emitted_grows(j as nat, i as nat, each);
        }
    }
    assert forall|k: int| 0 <= k < impacts.len() implies {
        let impact = #[trigger] impacts[k];
        &&& impact.bullet < bullets.len()
        &&& bullets[impact.bullet as int].strikes(row(sightings, impact.bullet as int)) == Some(
            impact.target,
        )
        &&& removed_of(bullets, sightings, delta).contains(impact.bullet)
    } by {
        let i = lemma_emitted_source(k, bullets.len(), each);
        law_hit_takes_precedence(bullets[i], row(sightings, i), delta);
        lemma_emitted_holds(i, bullets.len(), removal_of(bullets, sightings, delta));
    }
    assert forall|i: int|
        0 <= i < bullets.len() && (#[trigger] bullets[i].strikes(row(sightings, i))) is Some
        implies impacts.contains(
        Impact { bullet: i as usize, target: bullets[i].strikes(row(sightings, i))->0 },
    ) by {
        lemma_emitted_holds(i, bullets.len(), each);
    }
}

/// The removals of a tick stand in the order of the projectiles, so that no
/// projectile is named twice; they name exactly the projectiles that leave
/// the flight on this tick.
pub proof fn law_one_removal_per_bullet(
    bullets: Seq<Projectile>,
    sightings: Seq<Vec<u32>>,
    delta: u64,
)
    requires
        bullets.len() <= usize::MAX,
    ensures
        forall|a: int, b: int|
            0 <= a < b < removed_of(bullets, sightings, delta).len() ==> (#[trigger] removed_of(
                bullets,
                sightings,
                delta,
            )[a]) < (#[trigger] removed_of(bullets, sightings, delta)[b]),
        forall|k: int|
            0 <= k < removed_of(bullets, sightings, delta).len() ==> (#[trigger] removed_of(
                bullets,
                sightings,
                delta,
            )[k]) < bullets.len(),
        forall|i: int|
            0 <= i < bullets.len() ==> (removed_of(bullets, sightings, delta).contains(i as usize)
                <==> (#[trigger] bullets[i]).leaves(row(sightings, i), delta)),
{
    let each = removal_of(bullets, sightings, delta);
    lemma_emitted_places(bullets.len(), each);
    assert forall|i: int| 0 <= i < bullets.len() implies (removed_of(
        bullets,
        sightings,
        delta,
    ).contains(i as usize) <==> (#[trigger] bullets[i]).leaves(row(sightings, i), delta)) by {
        assert(each(i) is Some <==> bullets[i].leaves(row(sightings, i), delta));
    }
}

/// The expiry pass names the projectiles whose lifetime runs out on the tick,
/// in the order of the projectiles, so that none is named twice.
pub proof fn law_one_expiry_per_bullet(bullets: Seq<Projectile>, delta: u64)
    requires
        bullets.len() <= usize::MAX,
    ensures
        forall|a: int, b: int|
            0 <= a < b < expired_of(bullets, delta).len() ==> (#[trigger] expired_of(
                bullets,
                delta,
            )[a]) < (#[trigger] expired_of(bullets, delta)[b]),
        forall|k: int|
            0 <= k < expired_of(bullets, delta).len() ==> (#[trigger] expired_of(
                bullets,
                delta,
            )[k]) < bullets.len(),
        forall|i: int|
            0 <= i < bullets.len() ==> (expired_of(bullets, delta).contains(i as usize) <==> (
            #[trigger] bullets[i]).expires(delta)),
{
    let each = expiry_of(bullets, delta);
    lemma_emitted_places(bullets.len(), each);
    assert forall|i: int| 0 <= i < bullets.len() implies (expired_of(bullets, delta).contains(
        i as usize,
    ) <==> (#[trigger] bullets[i]).expires(delta)) by {
        assert(each(i) is Some <==> bullets[i].expires(delta));
    }
}

} // verus!
