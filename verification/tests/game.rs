use tower_defense::{tower_shooting, BulletPlugin, Projectile, Tower, DAMAGE};

const MILLI: u64 = 1_000_000;

/// A projectile as a host keeps it: where it is and where it flies, beside
/// what the rules keep of it.
struct Flying {
    position: [f32; 3],
    direction: [f32; 3],
    speed: f32,
    rules: Projectile,
}

fn distance(a: [f32; 3], b: [f32; 3]) -> f32 {
    let d = [a[0] - b[0], a[1] - b[1], a[2] - b[2]];
    (d[0] * d[0] + d[1] * d[1] + d[2] * d[2]).sqrt()
}

#[test]
fn one_tower_wears_down_one_target() {
    let muzzle: [f32; 3] = [0.0, 0.0, 0.0];
    let target: [f32; 3] = [1.0, 0.0, 0.0];
    let mut health: f32 = 3.0;
    let mut towers = vec![Tower::new(500 * MILLI)];
    let mut flying: Vec<Flying> = Vec::new();
    let mut shot_on = Vec::new();
    let mut hit_on = Vec::new();
    let mut removed_on = Vec::new();

    for tick in 1..=16 {
        let delta = 125 * MILLI;
        let seconds: f32 = 0.125;

        // the towers pick their targets
        let in_sight = vec![vec![distance(muzzle, target).to_bits()]];
        let shots = tower_shooting(&mut towers, &in_sight, delta);

        // the projectiles fly
        for bullet in flying.iter_mut() {
            for axis in 0..3 {
                bullet.position[axis] += bullet.direction[axis] * bullet.speed * seconds;
            }
        }

        // the projectiles hit or run out of time
        let mut rules: Vec<Projectile> = flying.iter().map(|bullet| bullet.rules).collect();
        let sightings: Vec<Vec<u32>> = flying
            .iter()
            .map(|bullet| vec![distance(bullet.position, target).to_bits()])
            .collect();
        let outcome = BulletPlugin.update(&mut rules, &sightings, delta);
        for (bullet, rule) in flying.iter_mut().zip(&rules) {
            bullet.rules = *rule;
        }
        for impact in &outcome.impacts {
            assert_eq!(impact.target, 0);
            health -= DAMAGE as f32;
            hit_on.push(tick);
        }
        for bullet in outcome.despawned.iter().rev() {
            flying.remove(*bullet);
            removed_on.push(tick);
        }

        // the new projectiles are in the scene from the next tick on
        for shot in &shots {
            assert_eq!((shot.tower, shot.target), (0, 0));
            flying.push(Flying {
                position: muzzle,
                direction: [1.0, 0.0, 0.0],
                speed: 2.0,
                rules: Projectile::new(10_000 * MILLI),
            });
            shot_on.push(tick);
        }
    }

    assert_eq!(shot_on, vec![4, 8, 12, 16]);
    assert_eq!(hit_on, vec![8, 12, 16]);
    assert_eq!(removed_on, vec![8, 12, 16]);
    assert_eq!(health, 0.0);
    assert_eq!(flying.len(), 1);
    assert_eq!(flying[0].position, muzzle);
}

#[test]
fn projectile_that_meets_no_target_flies_until_its_time_is_up() {
    let target: [f32; 3] = [0.0, 5.0, 0.0];
    let mut bullet = Flying {
        position: [0.0, 0.0, 0.0],
        direction: [1.0, 0.0, 0.0],
        speed: 2.0,
        rules: Projectile::new(500 * MILLI),
    };
    let mut removed_on = Vec::new();
    for tick in 1..=8 {
        if removed_on.is_empty() {
            bullet.position[0] += bullet.direction[0] * bullet.speed * 0.125;
        }
        let mut rules = vec![bullet.rules];
        let sightings = vec![vec![distance(bullet.position, target).to_bits()]];
        let outcome = BulletPlugin.update(&mut rules, &sightings, 125 * MILLI);
        bullet.rules = rules[0];
        assert_eq!(outcome.impacts, Vec::new());
        for _ in &outcome.despawned {
            removed_on.push(tick);
        }
    }
    assert_eq!(removed_on, vec![4]);
    assert_eq!(bullet.position, [1.0, 0.0, 0.0]);
}
