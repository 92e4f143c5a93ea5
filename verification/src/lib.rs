//! The decision core of a tick-driven tower-defense game.
//!
//! Towers fire on a timer at the nearest target; projectiles are removed when
//! they hit a target or when their lifetime runs out.  Everything here works
//! on integers: time is counted in nanoseconds, and a distance is handed over
//! as an integer key whose order is the order of the distances.  Positions,
//! directions and health points stay with the host that draws the scene.  Once
//! per tick the host measures the distances, calls these functions, and
//! carries out the requests that they return.

pub mod bullet;
pub mod requests;
pub mod sight;
pub mod ticks;
pub mod tower;

pub use bullet::{
    bullet_collision, bullet_despawn, BulletPlugin, Impact, Lifetime, Projectile, ProjectileState,
    TickOutcome, DAMAGE, HIT_RADIUS,
};
pub use sight::{first_hit, nearest_target};
pub use tower::{tower_shooting, Shot, Tower};
