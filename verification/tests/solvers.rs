use ripple::flip::{hash, idx, sample, splat, FlipSim};
use ripple::gpu::backend::{Input, Key};
use ripple::gpu::clock::drain;
use ripple::gpu::context::SurfaceSize;
use ripple::gpu::cpu_backends::{FlipBackend, SmokeBackend, SphCpuBackend};
use ripple::gpu::flip_gpu::{bindings, FlipBuffer, FlipStage, GpuFlip, GpuFlipBackend};
use ripple::gpu::render::{
    Blend, DrawStage, DrawTarget, Reads, RenderMode, Renderer, Style, Topology,
};
use ripple::gpu::sim::{GpuSim, SphBuffer, SphStage, PASSES};
use ripple::gpu::smoke_gpu::{
    GpuSmoke, GpuSmokeBackend, SmokeBinding, SmokeBuffer, SmokeCommand, SmokeStage,
};
use ripple::gpu::sph_backend::SphBackend;
use ripple::neighbors::{cell_of, for_neighbors, grid_fits};
use ripple::scalar::Scalar;
use ripple::shell::{AfterFrame, Fluid, KeyAction, Shell};
use ripple::sim::{sph_constants, Bounds, Shape, Sim};
use ripple::smoke::{add_source, ix, lin_solve, project, set_bnd, Smoke};
use ripple::vec2::{vec2, Vec2};

#[derive(Clone, Copy, Debug, PartialEq)]
struct Real(f32);

impl Scalar for Real {
    fn ratio(num: i32, den: i32) -> Self {
        Real(num as f32 / den as f32)
    }
    fn pi() -> Self {
        Real(std::f32::consts::PI)
    }
    fn of_count(n: usize) -> Self {
        Real(n as f32)
    }
    fn plus(self, other: Self) -> Self {
        Real(self.0 + other.0)
    }
    fn minus(self, other: Self) -> Self {
        Real(self.0 - other.0)
    }
    fn times(self, other: Self) -> Self {
        Real(self.0 * other.0)
    }
    fn over(self, other: Self) -> Self {
        Real(self.0 / other.0)
    }
    fn negate(self) -> Self {
        Real(-self.0)
    }
    fn powi(self, e: i32) -> Self {
        Real(self.0.powi(e))
    }
    fn sqrt(self) -> Self {
        Real(self.0.sqrt())
    }
    fn abs(self) -> Self {
        Real(self.0.abs())
    }
    fn exp(self) -> Self {
        Real(self.0.exp())
    }
    fn ceil(self) -> Self {
        Real(self.0.ceil())
    }
    fn lower(self, other: Self) -> Self {
        Real(self.0.min(other.0))
    }
    fn upper(self, other: Self) -> Self {
        Real(self.0.max(other.0))
    }
    fn clamp(self, lo: Self, hi: Self) -> Self {
        Real(self.0.clamp(lo.0, hi.0))
    }
    fn below(self, other: Self) -> bool {
        self.0 < other.0
    }
    fn at_least(self, other: Self) -> bool {
        self.0 >= other.0
    }
    fn same(self, other: Self) -> bool {
        self.0 == other.0
    }
    fn to_index(self) -> usize {
        self.0 as usize
    }
    fn to_i32(self) -> i32 {
        self.0 as i32
    }
    fn to_u32(self) -> u32 {
        self.0 as u32
    }
    fn to_u8(self) -> u8 {
        self.0 as u8
    }
}

/// Let a puff in at the bottom: it stays finite and bounded, and rises.
#[test]
fn smoke_is_stable_and_rises() {
    let n = 64;
    let mut s: Smoke<Real> = Smoke::new(n);
    let cx = n / 2;
    let src_j = 6;

    for step in 0..240 {
        if step < 80 {
            for dj in 0..3 {
                for di in -2i32..=2 {
                    let i = (cx as i32 + di) as usize;
                    s.add_density(i, src_j + dj, Real(8.0));
                    s.add_velocity(i, src_j + dj, Real(0.0), Real(8.0));
                }
            }
        }
        s.step(Real(1.0 / 60.0));
    }

    let mut total = 0.0f32;
    let mut weighted_j = 0.0f32;
    let mut max_d = 0.0f32;
    for j in 1..=n {
        for i in 1..=n {
            let d = s.density_at(i, j).0;
            assert!(d.is_finite(), "density NaN/inf at {i},{j}");
            total += d;
            weighted_j += d * j as f32;
            max_d = max_d.max(d);
        }
    }
    assert!(total > 1.0, "all smoke vanished (total {total})");
    assert!(max_d < 1e4, "density blew up (max {max_d})");
    let com_j = weighted_j / total;
    assert!(
        com_j > (src_j + 3) as f32,
        "smoke did not rise (com_j {com_j}, source {src_j})"
    );
    println!("smoke ok: total={total:.0} max={max_d:.1} com_j={com_j:.1}");
}

/// Drop a block of water: it stays finite and in bounds, settles toward the
/// floor and spreads along it.
#[test]
fn water_settles_and_is_stable() {
    let (nx, ny, h) = (64, 64, 1.0);
    let mut sim: FlipSim<Real> = FlipSim::new(nx, ny, Real(h));
    assert!(sim.len() > 500, "expected a decent block of particles");
    let (w, hgt) = sim.domain();
    let (w, hgt) = (w.0, hgt.0);

    let dt = Real(1.0 / 60.0);
    let mut max_speed = 0.0f32;
    for _ in 0..600 {
        sim.step(dt);
        for (_, v) in sim.particles() {
            max_speed = max_speed.max((v[0].0 * v[0].0 + v[1].0 * v[1].0).sqrt());
        }
    }

    let mut avg_y = 0.0f32;
    for (p, _) in sim.particles() {
        assert!(p[0].0.is_finite() && p[1].0.is_finite(), "particle NaN/inf");
        assert!(p[0].0 > 0.0 && p[0].0 < w, "escaped x: {}", p[0].0);
        assert!(p[1].0 > 0.0 && p[1].0 < hgt, "escaped y: {}", p[1].0);
        avg_y += p[1].0;
    }
    avg_y /= sim.len() as f32;
    assert!(avg_y < hgt * 0.4, "water did not settle (avg_y {avg_y})");
    let mut min_x = f32::MAX;
    let mut max_x = f32::MIN;
    for (p, _) in sim.particles() {
        min_x = min_x.min(p[0].0);
        max_x = max_x.max(p[0].0);
    }
    assert!(max_x - min_x > w * 0.3, "water didn't spread (width {})", max_x - min_x);
    println!(
        "flip ok: n={} max_speed={:.1} avg_y={:.1} width={:.1}",
        sim.len(),
        max_speed,
        avg_y,
        max_x - min_x
    );
}

fn speed(v: Vec2<Real>) -> f32 {
    v.length().0
}

/// The fluid stays finite and in bounds, is only mildly compressed, and settles
/// toward the floor under gravity.
#[test]
fn default_params_are_stable_liquid() {
    let (w, h) = (900.0f32, 600.0f32);
    let mut sim: Sim<Real> = Sim::new(Real(w), Real(h));
    sim.stiffness = sph_constants::<Real>().stiffness;
    let top_speed = sph_constants::<Real>().max_speed.0;
    let bounds = Bounds { w: Real(w), h: Real(h), shape: Shape::Rect };
    let gravity = vec2(Real(0.0), Real(1200.0));
    let dt = 0.0004f32;
    let sim_time = 5.0f32;

    let steps = (sim_time / dt) as usize;
    let mut max_speed = 0.0f32;
    let mut max_compression = 0.0f32;
    let rest = sim.rest_density().0;
    for _ in 0..steps {
        sim.step(Real(dt), gravity, &bounds);
        for v in &sim.vel {
            max_speed = max_speed.max(speed(*v));
        }
        for i in 0..sim.len() {
            max_compression = max_compression.max(sim.density_of(i).0 / rest);
        }
    }

    let finite = sim.pos.iter().all(|p| p.x.0.is_finite() && p.y.0.is_finite());
    let escaped = sim
        .pos
        .iter()
        .any(|p| p.x.0 < -2.0 || p.x.0 > w + 2.0 || p.y.0 < -2.0 || p.y.0 > h + 2.0);
    let capped = sim.vel.iter().filter(|v| speed(**v) >= top_speed - 1.0).count();
    let capped_frac = capped as f32 / sim.len() as f32;
    let avg_y = sim.pos.iter().map(|p| p.y.0).sum::<f32>() / sim.len() as f32;

    assert!(finite, "sim produced NaN/inf");
    assert!(!escaped, "particles escaped the container");
    assert!(
        max_compression < 3.0,
        "fluid over-compressed (max {max_compression:.2}x rest), not liquid-like"
    );
    assert!(
        capped_frac < 0.02,
        "too many particles pegged at speed cap ({:.1}%), unstable",
        capped_frac * 100.0
    );
    assert!(avg_y > 600.0 * 0.55, "fluid didn't settle (avg_y {avg_y:.1})");
    println!(
        "ok: maxspd={max_speed:.0} maxcomp={max_compression:.2} capped={:.2}% avg_y={avg_y:.1}",
        capped_frac * 100.0
    );
}

fn at(x: f32, y: f32) -> Vec2<Real> {
    vec2(Real(x), Real(y))
}

fn xy(v: Vec2<Real>) -> (f32, f32) {
    (v.x.0, v.y.0)
}

fn close(a: f32, b: f32) -> bool {
    (a - b).abs() <= 1e-4 * (1.0 + b.abs())
}

#[test]
fn constants_are_the_tuned_ones() {
    let k = sph_constants::<Real>();
    let pi = std::f32::consts::PI;
    assert_eq!(k.h.0, 16.0);
    assert_eq!(k.mass.0, 2.5);
    assert_eq!(k.poly6.0, 4.0 / (pi * 16.0f32.powi(8)));
    assert_eq!(k.spiky_grad.0, 30.0 / (pi * 16.0f32.powi(5)));
    assert_eq!(k.visc_lap.0, 40.0 / (pi * 16.0f32.powi(5)));
    assert_eq!(k.visc.0, 200.0);
    assert_eq!(k.stiffness.0, 2_000_000.0);
    assert_eq!(k.bound_damping.0, 0.4);
    assert_eq!(k.particle_radius.0, 8.0);
    assert_eq!(k.max_speed.0, 1500.0);
}

#[test]
fn box_walls_push_back_and_damp() {
    let b = Bounds { w: Real(100.0), h: Real(60.0), shape: Shape::Rect };
    let (mut p, mut v) = (at(2.0, 70.0), at(-10.0, 5.0));
    b.resolve(&mut p, &mut v);
    assert_eq!(xy(p), (8.0, 52.0));
    assert_eq!(xy(v), (4.0, -2.0));
    let (mut p, mut v) = (at(50.0, 30.0), at(-10.0, 5.0));
    b.resolve(&mut p, &mut v);
    assert_eq!(xy(p), (50.0, 30.0));
    assert_eq!(xy(v), (-10.0, 5.0));
}

#[test]
fn round_wall_reflects_the_outward_part() {
    let b = Bounds { w: Real(100.0), h: Real(100.0), shape: Shape::Circle };
    let (mut p, mut v) = (at(100.0, 50.0), at(10.0, 3.0));
    b.resolve(&mut p, &mut v);
    assert_eq!(xy(p), (92.0, 50.0));
    assert!(close(v.x.0, -4.0));
    assert_eq!(v.y.0, 3.0);
    let (mut p, mut v) = (at(100.0, 50.0), at(-10.0, 3.0));
    b.resolve(&mut p, &mut v);
    assert_eq!(xy(v), (-10.0, 3.0));
    let (mut p, mut v) = (at(50.0, 50.0), at(-10.0, 3.0));
    b.resolve(&mut p, &mut v);
    assert_eq!(xy(p), (50.0, 50.0));
    assert_eq!(xy(v), (-10.0, 3.0));
}

#[test]
fn shape_toggles() {
    assert_eq!(Shape::Rect.toggled(), Shape::Circle);
    assert_eq!(Shape::Rect.toggled().toggled(), Shape::Rect);
}

/// The block as a plain loop lays it out.
fn plain_block(w: f32, h: f32) -> Vec<(f32, f32)> {
    let spacing = 16.0 * 0.6;
    let mut list = Vec::new();
    let mut y = h * 0.30;
    let mut row = 0;
    while y < h * 0.92 {
        let mut x = w * 0.08 + if row % 2 == 0 { 0.0 } else { spacing * 0.5 };
        while x < w * 0.45 {
            list.push((x, y));
            x += spacing;
        }
        y += spacing;
        row += 1;
    }
    list
}

#[test]
fn fluid_starts_as_a_staggered_block_at_rest() {
    let sim: Sim<Real> = Sim::new(Real(300.0), Real(200.0));
    let want = plain_block(300.0, 200.0);
    assert!(!sim.is_empty());
    assert_eq!(sim.len(), want.len());
    for (p, q) in sim.pos.iter().zip(&want) {
        assert_eq!(xy(*p), *q);
    }
    assert!(sim.vel.iter().all(|v| xy(*v) == (0.0, 0.0)));
    for (pair, q) in sim.positions_xy().iter().zip(&want) {
        assert_eq!((pair[0].0, pair[1].0), *q);
    }
    let peak = (0..sim.len()).map(|i| sim.density_of(i).0).fold(0.0f32, f32::max);
    assert_eq!(sim.rest_density().0, peak.max(1e-6));
}

#[test]
fn empty_box_has_no_fluid() {
    let mut sim: Sim<Real> = Sim::new(Real(0.0), Real(0.0));
    assert!(sim.is_empty());
    assert_eq!(sim.rest_density().0, 1e-6);
    let b = Bounds { w: Real(0.0), h: Real(0.0), shape: Shape::Rect };
    sim.step(Real(0.0004), at(0.0, 1200.0), &b);
    assert_eq!(sim.len(), 0);
}

/// Density and forces of a few particles worked out pair by pair.
#[test]
fn step_agrees_with_a_sum_over_all_pairs() {
    let (w, h) = (120.0f32, 100.0f32);
    let mut sim: Sim<Real> = Sim::new(Real(w), Real(h));
    let n = sim.len();
    for i in 0..n {
        sim.vel[i] = at((i % 5) as f32 * 3.0 - 6.0, (i % 3) as f32 * 4.0 - 4.0);
    }
    let k = sph_constants::<Real>();
    let pos: Vec<(f32, f32)> = sim.pos.iter().map(|p| xy(*p)).collect();
    let vel: Vec<(f32, f32)> = sim.vel.iter().map(|p| xy(*p)).collect();
    let rest = sim.rest_density().0;
    let mut rho = vec![0.0f32; n];
    for i in 0..n {
        for j in 0..n {
            let (dx, dy) = (pos[j].0 - pos[i].0, pos[j].1 - pos[i].1);
            let r2 = dx * dx + dy * dy;
            if r2 < 256.0 {
                rho[i] += k.mass.0 * k.poly6.0 * (256.0 - r2).powi(3);
            }
        }
    }
    let press: Vec<f32> = rho.iter().map(|r| (k.stiffness.0 * (r - rest)).max(0.0)).collect();
    let (dt, gravity) = (0.0004f32, (0.0f32, 1200.0f32));
    let b = Bounds { w: Real(w), h: Real(h), shape: Shape::Rect };
    sim.step(Real(dt), at(gravity.0, gravity.1), &b);
    for i in 0..n {
        assert!(close(sim.density_of(i).0, rho[i]));
        let (mut fx, mut fy) = (0.0f32, 0.0f32);
        for j in 0..n {
            let (dx, dy) = (pos[j].0 - pos[i].0, pos[j].1 - pos[i].1);
            let r = (dx * dx + dy * dy).sqrt();
            if j != i && r < 16.0 && r > 0.0 {
                let rj = rho[j].max(1e-6);
                let push = k.mass.0 * (press[i] + press[j]) / (2.0 * rj) * k.spiky_grad.0
                    * (16.0 - r).powi(2);
                let drag = k.visc.0 * k.mass.0 / rj * k.visc_lap.0 * (16.0 - r);
                fx += -dx / r * push + (vel[j].0 - vel[i].0) * drag;
                fy += -dy / r * push + (vel[j].1 - vel[i].1) * drag;
            }
        }
        let d = rho[i].max(1e-6);
        let vx = vel[i].0 + dt * (fx / d + gravity.0);
        let vy = vel[i].1 + dt * (fy / d + gravity.1);
        let speed = (vx * vx + vy * vy).sqrt();
        let cap = if speed > 1500.0 { 1500.0 / speed } else { 1.0 };
        let (px, py) = (pos[i].0 + dt * vx * cap, pos[i].1 + dt * vy * cap);
        let inside = px >= 8.0 && px <= w - 8.0 && py >= 8.0 && py <= h - 8.0;
        if inside {
            assert!((sim.pos[i].x.0 - px).abs() < 1e-3);
            assert!((sim.pos[i].y.0 - py).abs() < 1e-3);
            assert!((sim.vel[i].x.0 - vx * cap).abs() < 0.5);
            assert!((sim.vel[i].y.0 - vy * cap).abs() < 0.5);
        }
    }
}

#[test]
fn fluid_keeps_its_particles_inside_the_walls() {
    let (w, h) = (200.0f32, 150.0f32);
    let mut sim: Sim<Real> = Sim::new(Real(w), Real(h));
    let n = sim.len();
    let b = Bounds { w: Real(w), h: Real(h), shape: Shape::Rect };
    sim.add_impulse(at(1000.0, -700.0));
    assert!(sim.vel.iter().all(|v| xy(*v) == (1000.0, -700.0)));
    for _ in 0..200 {
        sim.step(Real(0.0008), at(0.0, 1200.0), &b);
        assert_eq!(sim.len(), n);
        for p in &sim.pos {
            assert!(p.x.0 >= 8.0 && p.x.0 <= w - 8.0);
            assert!(p.y.0 >= 8.0 && p.y.0 <= h - 8.0);
        }
    }
}

#[test]
fn reset_fluid_goes_on_like_a_new_one() {
    let (w, h) = (200.0f32, 150.0f32);
    let b = Bounds { w: Real(w), h: Real(h), shape: Shape::Rect };
    let g = at(0.0, 1200.0);
    let mut used: Sim<Real> = Sim::new(Real(w), Real(h));
    used.add_impulse(at(300.0, -200.0));
    for _ in 0..20 {
        used.step(Real(0.0008), g, &b);
    }
    used.reset(Real(w), Real(h));
    let mut fresh: Sim<Real> = Sim::new(Real(w), Real(h));
    assert_eq!(used.len(), fresh.len());
    for _ in 0..20 {
        used.step(Real(0.0008), g, &b);
        fresh.step(Real(0.0008), g, &b);
    }
    for (p, q) in used.pos.iter().zip(&fresh.pos) {
        assert_eq!(xy(*p), xy(*q));
    }
    used.reset(Real(400.0), Real(h));
    assert_eq!(used.len(), plain_block(400.0, h).len());
    used.step(Real(0.0008), g, &Bounds { w: Real(400.0), h: Real(h), shape: Shape::Circle });
}

#[test]
fn neighbours_are_those_in_touching_cells() {
    let (cols, rows) = (7usize, 5usize);
    let pos: Vec<Vec2<Real>> = (0..90)
        .map(|i| at(((i * 37) % 130) as f32 - 10.0, ((i * 53) % 100) as f32 - 8.0))
        .collect();
    let mut grid: Vec<Vec<usize>> = vec![Vec::new(); cols * rows];
    for (i, p) in pos.iter().enumerate() {
        let (cx, cy) = cell_of(*p, cols, rows);
        assert!(cx < cols && cy < rows);
        grid[cy * cols + cx].push(i);
    }
    assert_eq!(cell_of(at(-100.0, 1e9), cols, rows), (0, 4));
    assert_eq!(cell_of(at(33.0, 15.9), cols, rows), (2, 0));
    for p in &pos {
        let near = for_neighbors(*p, &grid, cols, rows);
        let (cx, cy) = cell_of(*p, cols, rows);
        for (i, q) in pos.iter().enumerate() {
            let (dx, dy) = cell_of(*q, cols, rows);
            let touch = cx.abs_diff(dx) <= 1 && cy.abs_diff(dy) <= 1;
            assert_eq!(near.iter().filter(|k| **k == i).count(), touch as usize);
        }
    }
}

#[test]
fn grids_that_cannot_be_indexed_are_told() {
    let fits = |w: f32, h: f32| grid_fits(&Bounds { w: Real(w), h: Real(h), shape: Shape::Rect });
    assert!(fits(900.0, 600.0));
    assert!(fits(-5.0, 0.0));
    assert!(!fits(1e30, 600.0));
    assert!(!fits(1e20, 1e20));
}

#[test]
fn noise_of_a_count_is_fixed() {
    assert_eq!(hash::<Real>(0).0, 0.0);
    assert_eq!(hash::<Real>(1).0, 9015488.0 / 16777216.0);
    assert_eq!(hash::<Real>(2).0, 1253761.0 / 16777216.0);
    assert_eq!(hash::<Real>(12345).0, 3079415.0 / 16777216.0);
    assert_eq!(hash::<Real>(0x9e37).0, 8997980.0 / 16777216.0);
    assert_eq!(hash::<Real>(u32::MAX).0, 6849098.0 / 16777216.0);
}

#[test]
fn splat_shares_out_and_sample_reads_in_between() {
    assert_eq!(idx(2, 3, 5), 17);
    let mut field = vec![Real(0.0); 12];
    let mut wt = vec![Real(0.0); 12];
    splat(&mut field, &mut wt, 4, 3, Real(1.25), Real(0.5), Real(8.0));
    let w: Vec<f32> = wt.iter().map(|w| w.0).collect();
    let f: Vec<f32> = field.iter().map(|w| w.0).collect();
    assert_eq!(w, vec![0.0, 0.375, 0.125, 0.0, 0.0, 0.375, 0.125, 0.0, 0.0, 0.0, 0.0, 0.0]);
    assert_eq!(f, vec![0.0, 3.0, 1.0, 0.0, 0.0, 3.0, 1.0, 0.0, 0.0, 0.0, 0.0, 0.0]);
    let slope: Vec<Real> = (0..12).map(|k| Real((k % 4) as f32 + 10.0 * (k / 4) as f32)).collect();
    assert_eq!(sample(&slope, 4, 3, Real(1.25), Real(0.5)).0, 6.25);
    assert_eq!(sample(&slope, 4, 3, Real(-9.0), Real(-9.0)).0, 0.0);
    assert!((sample(&slope, 4, 3, Real(99.0), Real(99.0)).0 - 23.0).abs() < 1e-2);
}

#[test]
fn water_starts_as_a_jittered_block_at_rest() {
    let sim: FlipSim<Real> = FlipSim::new(20, 16, Real(1.0));
    let (w, h) = sim.domain();
    assert_eq!((w.0, h.0), (20.0, 16.0));
    let mut want: Vec<(f32, f32)> = Vec::new();
    let step = 0.5f32;
    let (mut y, mut row) = (16.0f32 * 0.06, 0);
    while y < 16.0 * 0.6 {
        let mut x = 20.0f32 * 0.06 + if row % 2 == 0 { 0.0 } else { step * 0.5 };
        while x < 20.0 * 0.45 {
            let n = want.len() as u32;
            let jx = (hash::<Real>(n).0 - 0.5) * step * 0.3;
            let jy = (hash::<Real>(n ^ 0x9e37).0 - 0.5) * step * 0.3;
            want.push((x + jx, y + jy));
            x += step;
        }
        y += step;
        row += 1;
    }
    assert!(!sim.is_empty());
    assert_eq!(sim.len(), want.len());
    for ((p, v), q) in sim.particles().iter().zip(&want) {
        assert_eq!((p[0].0, p[1].0), *q);
        assert_eq!((v[0].0, v[1].0), (0.0, 0.0));
    }
}

#[test]
fn water_is_reset_pushed_and_tuned() {
    let mut sim: FlipSim<Real> = FlipSim::new(24, 24, Real(1.0));
    let start = sim.particles();
    let n = sim.len();
    sim.add_impulse(Real(3.0), Real(-2.0));
    assert!(sim.particles().iter().all(|(_, v)| (v[0].0, v[1].0) == (3.0, -2.0)));
    sim.reset();
    let c = (start[0].0[0].0, start[0].0[1].0);
    sim.push(Real(c.0), Real(c.1), Real(1.0), Real(2.0), Real(1.5));
    for (p, v) in sim.particles() {
        let (dx, dy) = (p[0].0 - c.0, p[1].0 - c.1);
        let want = if dx * dx + dy * dy < 2.25 { (1.0, 2.0) } else { (0.0, 0.0) };
        assert_eq!((v[0].0, v[1].0), want);
    }
    sim.config().gravity = [Real(0.0), Real(30.0)];
    sim.config().iters = 5;
    for _ in 0..60 {
        sim.step(Real(1.0 / 60.0));
    }
    assert_eq!(sim.len(), n);
    let mean: f32 = sim.particles().iter().map(|(p, _)| p[1].0).sum::<f32>() / n as f32;
    assert!(mean > 12.0, "water did not fall upward: {mean}");
    for (p, _) in sim.particles() {
        assert!(p[0].0 >= 1.001 && p[0].0 <= 22.999 && p[1].0 >= 1.001 && p[1].0 <= 22.999);
    }
    sim.reset();
    for ((p, v), (q, _)) in sim.particles().iter().zip(&start) {
        assert_eq!((p[0].0, p[1].0), (q[0].0, q[1].0));
        assert_eq!((v[0].0, v[1].0), (0.0, 0.0));
    }
}

#[test]
fn reset_water_goes_on_like_new_water() {
    let mut used: FlipSim<Real> = FlipSim::new(24, 24, Real(1.0));
    used.add_impulse(Real(4.0), Real(1.0));
    for _ in 0..20 {
        used.step(Real(1.0 / 60.0));
    }
    used.reset();
    let mut fresh: FlipSim<Real> = FlipSim::new(24, 24, Real(1.0));
    for _ in 0..20 {
        used.step(Real(1.0 / 60.0));
        fresh.step(Real(1.0 / 60.0));
    }
    assert_eq!(used.particles(), fresh.particles());
}

/// A block of water in the middle of the air falls freely in its first step.
#[test]
fn lone_water_falls_freely() {
    let mut sim: FlipSim<Real> = FlipSim::new(40, 40, Real(1.0));
    sim.config().iters = 0;
    let before = sim.particles();
    let dt = 1.0f32 / 60.0;
    sim.step(Real(dt));
    for ((p, _), (q, _)) in sim.particles().iter().zip(&before) {
        let v = -9.0 * dt;
        assert_eq!(p[0].0, q[0].0.max(1.001));
        assert_eq!(p[1].0, (q[1].0 + v * dt).max(1.001));
    }
}

#[test]
fn tiny_basins_take_steps() {
    let mut sim: FlipSim<Real> = FlipSim::new(2, 2, Real(1.0));
    sim.step(Real(0.01));
    let mut flat: FlipSim<Real> = FlipSim::new(0, 1, Real(1.0));
    assert!(flat.is_empty());
    flat.step(Real(0.01));
}

#[test]
fn border_follows_the_cells_beside_it() {
    let n = 2;
    let mut x: Vec<Real> = (0..16).map(|k| Real(k as f32)).collect();
    set_bnd(n, 1, &mut x);
    let v: Vec<f32> = x.iter().map(|x| x.0).collect();
    assert_eq!(
        v,
        vec![
            0.0, 5.0, 6.0, 0.0, -5.0, 5.0, 6.0, -6.0, -9.0, 9.0, 10.0, -10.0, 0.0, 9.0, 10.0, 0.0
        ]
    );
    let mut x: Vec<Real> = (0..16).map(|k| Real(k as f32)).collect();
    set_bnd(n, 2, &mut x);
    assert_eq!((x[1].0, x[4].0, x[14].0), (-5.0, 5.0, -10.0));
    let mut x: Vec<Real> = (0..16).map(|k| Real(k as f32)).collect();
    set_bnd(n, 0, &mut x);
    assert_eq!((x[1].0, x[4].0, x[0].0), (5.0, 5.0, 5.0));
    assert_eq!(ix(2, 1, n), 6);
}

#[test]
fn solve_without_spread_copies_and_sources_add_up() {
    let n = 2;
    let x0: Vec<Real> = (0..16).map(|k| Real(k as f32)).collect();
    let mut x = vec![Real(0.0); 16];
    lin_solve(n, 0, &mut x, &x0, Real(0.0), Real(2.0));
    assert_eq!((x[5].0, x[6].0, x[9].0, x[10].0), (2.5, 3.0, 4.5, 5.0));
    let mut a = vec![Real(1.0), Real(2.0), Real(3.0)];
    add_source(&mut a, &vec![Real(10.0), Real(20.0), Real(30.0)], Real(0.5));
    assert_eq!(a, vec![Real(6.0), Real(12.0), Real(18.0)]);
}

#[test]
fn still_smoke_stays_and_fades() {
    let mut s: Smoke<Real> = Smoke::new(8);
    s.buoyancy = Real(0.0);
    s.vorticity = Real(0.0);
    let dt = 0.5f32;
    s.add_density(3, 4, Real(6.0));
    s.add_density(0, 4, Real(100.0));
    s.add_density(9, 9, Real(100.0));
    s.add_velocity(0, 0, Real(9.0), Real(9.0));
    s.step(Real(dt));
    let want = 3.0 * (1.0 / (1.0 + dt * 0.4));
    assert_eq!(s.density_at(3, 4).0, want);
    let total: f32 = (1..=8).flat_map(|j| (1..=8).map(move |i| (i, j)))
        .map(|(i, j)| s.density_at(i, j).0)
        .sum();
    assert_eq!(total, want);
    s.step(Real(dt));
    assert_eq!(s.density_at(3, 4).0, want * (1.0 / (1.0 + dt * 0.4)));
    assert_eq!(s.n(), 8);
    s.reset();
    assert!((0..10).all(|j| (0..10).all(|i| s.density_at(i, j).0 == 0.0)));
    assert_eq!((s.buoyancy.0, s.dissipation.0), (0.0, 0.4));
}

#[test]
fn smoke_border_repeats_the_inside() {
    let mut s: Smoke<Real> = Smoke::new(6);
    for j in 1..=6 {
        for i in 1..=6 {
            s.add_density(i, j, Real((i * j) as f32));
            s.add_velocity(i, j, Real(i as f32 - 3.0), Real(2.0));
        }
    }
    s.step(Real(0.1));
    for m in 1..=6 {
        assert_eq!(s.density_at(0, m), s.density_at(1, m));
        assert_eq!(s.density_at(7, m), s.density_at(6, m));
        assert_eq!(s.density_at(m, 0), s.density_at(m, 1));
        assert_eq!(s.density_at(m, 7), s.density_at(m, 6));
    }
}

#[test]
fn time_is_cut_into_steps() {
    assert_eq!(drain(Real(1.0), Real(0.25), 10), (4, Real(0.0)));
    assert_eq!(drain(Real(0.9), Real(0.25), 10).0, 3);
    assert!(drain(Real(0.9), Real(0.25), 10).1 .0 < 0.25);
    assert_eq!(drain(Real(9.0), Real(0.25), 10), (10, Real(0.0)));
    assert_eq!(drain(Real(0.1), Real(0.25), 10), (0, Real(0.1)));
    assert_eq!(drain(Real(0.1), Real(0.25), 0), (0, Real(0.0)));
}

#[test]
fn keys_are_held_and_pressed() {
    let mut input: Input<Real> = Input::new();
    assert!(!input.held(Key::Space) && !input.pressed(Key::Space));
    input.key(Key::Space, true, false);
    input.key(Key::Other(4), true, true);
    assert!(input.held(Key::Space) && input.pressed(Key::Space));
    assert!(input.held(Key::Other(4)) && !input.pressed(Key::Other(4)));
    assert!(!input.held(Key::KeyR) && !input.held(Key::Other(5)));
    input.mouse = (Real(5.0), Real(7.0));
    assert_eq!(input.mouse_delta(), (Real(5.0), Real(7.0)));
    input.end_frame();
    assert!(input.held(Key::Space) && !input.pressed(Key::Space));
    assert_eq!(input.mouse_delta(), (Real(0.0), Real(0.0)));
    input.mouse = (Real(6.0), Real(5.0));
    assert_eq!(input.mouse_delta(), (Real(1.0), Real(-2.0)));
    input.key(Key::Space, false, false);
    assert!(!input.held(Key::Space));
    assert_eq!(input.pointer(), (Real(6.0), Real(5.0)));
    assert!(!input.dragging());
}

const SIZE: SurfaceSize = SurfaceSize { width: 300, height: 200 };

#[test]
fn liquid_backend_turns_frames_into_steps() {
    let mut b: SphCpuBackend<Real> = SphCpuBackend::new(SIZE);
    let mut direct: Sim<Real> = Sim::new(Real(300.0), Real(200.0));
    let bounds = Bounds { w: Real(300.0), h: Real(200.0), shape: Shape::Rect };
    let mut input: Input<Real> = Input::new();
    input.key(Key::ArrowRight, true, false);
    b.update(Real(0.002), &input);
    direct.add_impulse(at(650.0, 0.0));
    for _ in 0..2 {
        direct.step(Real(0.0008), at(0.0, 1200.0), &bounds);
    }
    let (pos, vel) = b.dots();
    assert_eq!(*pos, direct.positions_xy());
    assert_eq!(*vel, direct.velocities_xy());
    assert_eq!(b.name(), "CPU SPH");
    assert_eq!(b.num(), direct.len());
    let p = b.dot_params();
    assert_eq!(p.capacity as usize, direct.len());
    assert_eq!((p.domain_w.0, p.radius.0, p.max_speed.0), (300.0, 8.0 * 0.85, 450.0));

    input.end_frame();
    input.key(Key::ArrowRight, false, false);
    input.key(Key::ArrowDown, true, false);
    b.update(Real(0.5), &input);
    assert_eq!(b.gravity_scale().0, 1.0 + 1.2 * 0.5);
    b.update(Real(5.0), &input);
    assert_eq!(b.gravity_scale().0, 2.5);
    input.key(Key::ArrowDown, false, false);
    input.key(Key::ArrowUp, true, false);
    b.update(Real(5.0), &input);
    assert_eq!(b.gravity_scale().0, 0.0);
    input.key(Key::KeyR, true, false);
    input.key(Key::KeyC, true, false);
    b.update(Real(0.0), &input);
    assert_eq!(b.gravity_scale().0, 1.0);
    let fresh: Sim<Real> = Sim::new(Real(300.0), Real(200.0));
    assert_eq!(*b.dots().0, fresh.positions_xy());
    b.set_gravity_scale(Real(0.5));
    b.toggle_shape();
    assert_eq!(b.gravity_scale().0, 0.5);
}

#[test]
fn smoke_backend_feeds_and_paints() {
    let mut b: SmokeBackend<Real> = SmokeBackend::new();
    let mut input: Input<Real> = Input::new();
    assert_eq!(SmokeBackend::cell(Real(0.0), Real(0.0), SIZE), (1, 128));
    assert_eq!(SmokeBackend::cell(Real(299.0), Real(199.0), SIZE), (128, 1));
    assert_eq!(SmokeBackend::cell(Real(-50.0), Real(1e9), SIZE), (1, 1));
    assert_eq!(SmokeBackend::cell(Real(150.0), Real(100.0), SIZE), (65, 64));
    assert_eq!(b.name(), "smoke");
    b.update(Real(1.0), &input, SIZE);
    let px = |b: &SmokeBackend<Real>, i: usize, j: usize| {
        let k = ((128 - j) * 128 + i - 1) * 4;
        b.picture()[k..k + 4].to_vec()
    };
    assert_eq!(b.picture().len(), 128 * 128 * 4);
    assert!(px(&b, 64, 5)[2] > 50);
    assert_eq!(px(&b, 64, 60), vec![0, 0, 0, 255]);
    for p in b.picture().chunks(4) {
        assert_eq!(p[0], (p[2] as f32 * 0.9) as u8);
        assert_eq!(p[1], (p[2] as f32 * 0.95) as u8);
        assert_eq!(p[3], 255);
    }

    input.key(Key::KeyR, true, false);
    input.key(Key::KeyS, true, false);
    input.key(Key::KeyV, true, false);
    b.update(Real(0.01), &input, SIZE);
    assert!(!b.has_source() && !b.has_vorticity());
    assert!(b.picture().chunks(4).all(|p| *p == [0, 0, 0, 255]));
    input.end_frame();

    input.mouse_down = true;
    input.mouse = (Real(150.0), Real(100.0));
    input.end_frame();
    b.update(Real(0.01), &input, SIZE);
    assert!(px(&b, 65, 64)[2] > 50 && px(&b, 63, 62)[2] > 50);
    assert_eq!(px(&b, 20, 20)[2], 0);
    b.set_source(true);
    b.set_vorticity(true);
    assert!(b.has_source() && b.has_vorticity());
}

#[test]
fn water_backend_turns_frames_into_steps() {
    let mut b: FlipBackend<Real> = FlipBackend::new();
    let mut direct: FlipSim<Real> = FlipSim::new(80, 80, Real(1.0));
    let mut input: Input<Real> = Input::new();
    input.key(Key::Space, true, false);
    b.update(Real(0.02), &input, SIZE);
    direct.add_impulse(Real(0.0), Real(14.0));
    for _ in 0..2 {
        direct.step(Real(1.0 / 120.0));
    }
    let (pos, vel) = b.dots();
    for ((p, v), (shown, moved)) in direct.particles().iter().zip(pos.iter().zip(vel)) {
        assert_eq!((shown[0].0, shown[1].0), (p[0].0, 80.0 - p[1].0));
        assert_eq!((moved[0].0, moved[1].0), (v[0].0, v[1].0));
    }
    assert_eq!(b.name(), "FLIP water");
    assert_eq!(b.num(), direct.len());
    let d = b.dot_params();
    assert_eq!((d.domain_w.0, d.domain_h.0, d.radius.0, d.max_speed.0), (80.0, 80.0, 0.45, 25.0));

    input.end_frame();
    input.key(Key::Space, false, false);
    input.mouse = (Real(75.0), Real(150.0));
    input.end_frame();
    input.mouse = (Real(78.0), Real(150.0));
    input.mouse_down = true;
    b.update(Real(0.0), &input, SIZE);
    let dvx = 3.0f32 / 300.0 * 80.0 / (1.0f32 / 120.0) * 0.02;
    direct.push(
        Real(78.0 / 300.0 * 80.0),
        Real((1.0 - 150.0 / 200.0) * 80.0),
        Real(dvx),
        Real(-0.0 / 200.0 * 80.0 / (1.0 / 120.0) * 0.02),
        Real(80.0 * 0.12),
    );
    for ((_, v), moved) in direct.particles().iter().zip(b.dots().1) {
        assert_eq!((moved[0].0, moved[1].0), (v[0].0, v[1].0));
    }
    input.mouse_down = false;
    input.key(Key::KeyR, true, false);
    b.set_gravity_scale(Real(0.25));
    b.update(Real(0.0), &input, SIZE);
    assert_eq!(b.gravity_scale().0, 1.0);
    let fresh: FlipSim<Real> = FlipSim::new(80, 80, Real(1.0));
    for ((p, _), shown) in fresh.particles().iter().zip(b.dots().0) {
        assert_eq!((shown[0].0, shown[1].0), (p[0].0, 80.0 - p[1].0));
    }
}

#[test]
fn smoke_passes_go_back_and_forth() {
    let mut s: GpuSmoke<Real> = GpuSmoke::new(64);
    assert_eq!(s.n(), 64);
    assert_eq!(s.buffer_bytes(), 66 * 66 * 4);
    assert_eq!(s.dens_buffer(), SmokeBuffer::Dens);
    let p = s.upload_params();
    assert_eq!((p.n, p.src_half, p.src_y), (64, 3, 4));
    assert_eq!((p.dt.0, p.buoyancy.0, p.dissipation.0), (1.0 / 30.0, 1.0, 0.4));
    assert_eq!(GpuSmoke::<Real>::new(256).upload_params().src_half, 12);
    let plan = s.record_step();
    assert_eq!(plan.len(), 2 * 42 + 6);
    let pass = |stage, binding| SmokeCommand::Pass { stage, binding, groups: 8 };
    assert_eq!(plan[0], pass(SmokeStage::Forces, SmokeBinding::Main));
    assert_eq!(plan[1], pass(SmokeStage::Divergence, SmokeBinding::Main));
    for it in 0..40 {
        let binding = if it % 2 == 0 { SmokeBinding::Main } else { SmokeBinding::Swap };
        assert_eq!(plan[2 + it], pass(SmokeStage::Jacobi, binding));
    }
    assert_eq!(plan[42], pass(SmokeStage::SubtractGradient, SmokeBinding::Main));
    assert_eq!(plan[43], pass(SmokeStage::AdvectVel, SmokeBinding::Main));
    let bytes = 66 * 66 * 4;
    assert_eq!(plan[44], SmokeCommand::Copy { from: SmokeBuffer::Nu, to: SmokeBuffer::U, bytes });
    assert_eq!(plan[45], SmokeCommand::Copy { from: SmokeBuffer::Nv, to: SmokeBuffer::V, bytes });
    assert_eq!(
        plan[89],
        SmokeCommand::Copy { from: SmokeBuffer::Ndens, to: SmokeBuffer::Dens, bytes }
    );
    let main = SmokeBinding::Main.buffers();
    let swap = SmokeBinding::Swap.buffers();
    assert_eq!((main[6], main[7]), (SmokeBuffer::P, SmokeBuffer::Q));
    assert_eq!((swap[6], swap[7]), (SmokeBuffer::Q, SmokeBuffer::P));
    assert_eq!(SmokeStage::AdvectDens.entry(), "advect_dens");
    assert!(!s.reset().contains(&SmokeBuffer::Nu));
    assert_eq!(s.reset().len(), 6);
    s.set_source(false);
    s.set_params(Real(2.0), Real(0.5));
    let p = s.upload_params();
    assert_eq!((p.src_amount.0, p.src_vy.0, p.buoyancy.0, p.dissipation.0), (0.0, 0.0, 2.0, 0.5));
    s.set_source(true);
    assert_eq!((s.upload_params().src_amount.0, s.upload_params().src_vy.0), (40.0, 6.0));
}

#[test]
fn smoke_frames_follow_the_keys() {
    let mut b: GpuSmokeBackend<Real> = GpuSmokeBackend::new();
    let mut input: Input<Real> = Input::new();
    let f = b.update(Real(1.0), &input);
    assert!(f.cleared.is_empty());
    assert_eq!(f.params.src_amount.0, 40.0);
    assert_eq!(f.commands.len(), 90);
    input.key(Key::KeyS, true, false);
    input.key(Key::KeyR, true, false);
    b.set(Real(3.0), Real(0.1), true);
    let f = b.update(Real(1.0), &input);
    assert_eq!(f.cleared.len(), 6);
    assert_eq!((f.params.src_amount.0, f.params.buoyancy.0, f.params.dissipation.0), (0.0, 3.0, 0.1));
    assert_eq!(b.settings(), (Real(3.0), Real(0.1), false));
    assert_eq!(b.name(), "GPU smoke");
    assert_eq!((b.render_params().n, b.render_params().display_k.0), (256, 1.5));
    assert_eq!(b.solver().n(), 256);
}

#[test]
fn water_passes_cover_the_grid() {
    let mut f: GpuFlip<Real> = GpuFlip::new(64, 48, Real(1.0));
    let basin: FlipSim<Real> = FlipSim::new(64, 48, Real(1.0));
    let n = basin.len() as u32;
    assert_eq!(f.num(), n);
    assert_eq!(*f.reset().start, basin.positions_xy());
    assert_eq!(f.domain(), (Real(64.0), Real(48.0)));
    let plan = f.record_step();
    assert_eq!(plan.len(), 27);
    assert_eq!((plan[0].stage, plan[0].x, plan[0].y), (FlipStage::Integrate, n.div_ceil(64), 1));
    assert_eq!((plan[1].stage, plan[1].x), (FlipStage::Clear, (64u32 * 49).div_ceil(64)));
    assert_eq!((plan[4].stage, plan[4].x, plan[4].y), (FlipStage::Divergence, 8, 6));
    assert_eq!((plan[5].stage, plan[6].stage), (FlipStage::SorRed, FlipStage::SorBlack));
    assert_eq!(plan[26].stage, FlipStage::G2p);
    f.set_sweeps(40);
    assert_eq!(f.record_step().len(), 87);
    assert_eq!(f.buffer_bytes(FlipBuffer::Pos), n as u64 * 8);
    assert_eq!(f.buffer_bytes(FlipBuffer::Wu), 65 * 48 * 4);
    assert_eq!(f.buffer_bytes(FlipBuffer::VPrev), 64 * 49 * 4);
    assert_eq!(f.buffer_bytes(FlipBuffer::P2), 64 * 48 * 4);
    let mask = f.solid_mask();
    assert_eq!(mask.len(), 64 * 48);
    for (k, s) in mask.iter().enumerate() {
        let (i, j) = (k % 64, k / 64);
        let border = i == 0 || i == 63 || j == 0 || j == 47;
        assert_eq!(s.0, if border { 0.0 } else { 1.0 });
    }
    let list = bindings();
    assert_eq!(list.len(), 15);
    assert_eq!((list[0], list[10], list[14]), (FlipBuffer::Pos, FlipBuffer::S, FlipBuffer::P2));
    f.set_frame([Real(1.0), Real(2.0)], Real(3.0), [Real(4.0), Real(5.0)]);
    let p = f.upload_params();
    assert_eq!(
        (p.gx.0, p.gy.0, p.dt.0, p.impulse_x.0, p.impulse_y.0, p.flip.0),
        (1.0, 2.0, 3.0, 4.0, 5.0, 0.9)
    );
    assert_eq!(FlipStage::SubtractGradient.entry(), "subtract_gradient");
    assert_eq!((f.pos_buffer(), f.vel_buffer()), (FlipBuffer::Pos, FlipBuffer::Vel));
}

#[test]
fn water_frames_share_the_jolt_out() {
    let mut b: GpuFlipBackend<Real> = GpuFlipBackend::new();
    let mut input: Input<Real> = Input::new();
    input.key(Key::ArrowLeft, true, false);
    input.key(Key::Space, true, false);
    let f = b.update(Real(0.001), &input);
    assert_eq!(f.steps, 0);
    assert!(f.params.is_none() && !f.reset);
    input.end_frame();
    let f = b.update(Real(0.02), &input);
    assert_eq!(f.steps, 2);
    let p = f.params.unwrap();
    assert_eq!((p.impulse_x.0, p.impulse_y.0, p.gy.0), (-7.0, 7.0, -9.0));
    let f = b.update(Real(0.02), &input);
    let p = f.params.unwrap();
    assert_eq!((p.impulse_x.0, p.impulse_y.0), (0.0, 0.0));
    assert_eq!(f.passes.len(), 27);
    input.key(Key::KeyR, true, false);
    b.set_gravity_scale(Real(0.5));
    let f = b.update(Real(9.0), &input);
    assert!(f.reset);
    assert_eq!(b.gravity_scale().0, 1.0);
    assert_eq!(f.steps, 6);
    assert_eq!(b.name(), "GPU FLIP");
    assert_eq!(b.dot_params().capacity, b.solver().num());
}

#[test]
fn particle_passes_and_buffers() {
    assert!(GpuSim::fits(Real(900.0), Real(600.0)));
    assert!(!GpuSim::fits(Real(1e9), Real(1e9)));
    assert!(!GpuSim::fits(Real(1e12), Real(1.0)));
    let mut s: GpuSim<Real> = GpuSim::new(Real(300.0), Real(200.0));
    let fluid: Sim<Real> = Sim::new(Real(300.0), Real(200.0));
    let n = fluid.len() as u32;
    assert_eq!(s.num(), n);
    assert_eq!(*s.reset().start, fluid.positions_xy());
    assert_eq!(s.domain(), (Real(300.0), Real(200.0)));
    assert_eq!((s.particle_radius().0, s.max_speed().0), (8.0, 1500.0));
    let p = s.upload_params();
    assert_eq!((p.num, p.cols, p.rows, p.grid_cap, p.bound_shape), (n, 20, 14, 64, 0));
    assert_eq!((p.rest_dens, p.gravity_y.0, p.dt.0), (fluid.rest_density(), 1200.0, 0.0008));
    let plan = s.record_step();
    assert_eq!(plan.len(), PASSES);
    assert_eq!((plan[0].stage, plan[0].groups), (SphStage::ClearGrid, (20u32 * 14).div_ceil(64)));
    for k in 1..PASSES {
        assert_eq!(plan[k].groups, n.div_ceil(64));
        assert!(plan[k].begin.is_none() && plan[k].end.is_none());
    }
    assert_eq!(plan[2].stage.entry(), "density_pressure");
    for (k, pass) in s.record_step_timed().iter().enumerate() {
        assert_eq!((pass.begin, pass.end), (Some(2 * k as u32), Some(2 * k as u32 + 1)));
        assert_eq!((pass.stage, pass.groups), (plan[k].stage, plan[k].groups));
    }
    assert_eq!(s.buffer_bytes(SphBuffer::Force), n as u64 * 8);
    assert_eq!(s.buffer_bytes(SphBuffer::Rho), n as u64 * 4);
    assert_eq!(s.buffer_bytes(SphBuffer::GridCount), 20 * 14 * 4);
    assert_eq!(s.buffer_bytes(SphBuffer::GridCells), 20 * 14 * 64 * 4);
    assert_eq!(ripple::gpu::sim::bindings()[6], SphBuffer::GridCells);
    s.set_frame([Real(1.0), Real(2.0)], Real(3.0), [Real(4.0), Real(5.0)], 1);
    let p = s.upload_params();
    assert_eq!((p.gravity_x.0, p.gravity_y.0, p.dt.0), (1.0, 2.0, 3.0));
    assert_eq!((p.impulse_x.0, p.impulse_y.0, p.bound_shape), (4.0, 5.0, 1));
}

#[test]
fn renderer_draws_each_mode() {
    let sim: GpuSim<Real> = GpuSim::new(Real(300.0), Real(200.0));
    let mut r: Renderer<Real> = Renderer::new(&sim, 300, 0);
    assert_eq!(r.field_size(), (300, 1));
    assert_eq!((r.params().radius.0, r.params().max_speed.0), (8.0, 1500.0));
    r.resize(301, 207);
    assert_eq!(r.field_size(), (301, 207));
    let n = sim.num();
    let dots = r.render(RenderMode::Dots);
    assert_eq!(dots.len(), 1);
    assert_eq!((dots[0].stage, dots[0].vertices, dots[0].instances), (DrawStage::Dots, 6, n));
    let cells = 37 * 25;
    for (mode, stage, vertices) in [
        (RenderMode::Metaballs, DrawStage::Composite, 3),
        (RenderMode::MarchingSquares, DrawStage::Contour, cells * 4),
        (RenderMode::MarchingSquaresFill, DrawStage::Fill, cells * 9),
    ] {
        assert!(r.drawable(mode));
        let plan = r.render(mode);
        assert_eq!(plan.len(), 2);
        assert_eq!((plan[0].stage, plan[0].target), (DrawStage::Blobs, DrawTarget::Field));
        assert_eq!((plan[0].vertices, plan[0].instances), (6, n));
        assert_eq!((plan[1].stage, plan[1].target), (stage, DrawTarget::Surface));
        assert_eq!((plan[1].vertices, plan[1].instances), (vertices, 1));
    }
    r.resize(u32::MAX, u32::MAX);
    assert!(!r.drawable(RenderMode::MarchingSquares));
    assert!(!r.drawable(RenderMode::MarchingSquaresFill));
    assert!(r.drawable(RenderMode::Dots));
}

#[test]
fn particle_frames_follow_the_keys() {
    let mut b: SphBackend<Real> = SphBackend::new(SIZE);
    let mut input: Input<Real> = Input::new();
    assert_eq!(b.mode(), RenderMode::Metaballs);
    input.key(Key::ArrowRight, true, false);
    input.key(Key::Space, true, false);
    input.key(Key::KeyC, true, false);
    input.key(Key::KeyM, true, false);
    let f = b.update(Real(0.0), &input);
    assert_eq!((f.steps, f.reset), (0, false));
    assert_eq!(b.mode(), RenderMode::MarchingSquares);
    input.end_frame();
    let f = b.update(Real(0.004), &input);
    assert!(f.steps == 4 || f.steps == 5);
    let p = f.params.unwrap();
    let share = 650.0 / f.steps as f32;
    assert_eq!((p.impulse_x.0, p.impulse_y.0), (share, -share));
    assert_eq!((p.bound_shape, p.gravity_y.0, p.dt.0), (1, 1200.0, 0.0008));
    assert_eq!(f.passes.len(), 5);
    let f = b.update(Real(1.0), &input);
    assert_eq!(f.steps, 40);
    input.key(Key::KeyR, true, false);
    b.set_gravity_scale(Real(2.0));
    let f = b.update(Real(0.0), &input);
    assert!(f.reset && f.steps == 0);
    assert_eq!(b.gravity_scale().0, 1.0);
    b.toggle_shape();
    b.set_mode(RenderMode::Dots);
    b.resize(800, 0);
    assert_eq!(b.painter().field_size(), (800, 1));
    assert!(b.drawable());
    assert_eq!(b.render().len(), 1);
    assert_eq!(b.num(), b.solver().num());
    assert_eq!(b.solver().reset().start.len() as u32, b.num());
    assert_eq!(b.name(), "GPU SPH");
}

#[test]
fn unattended_run_takes_its_pictures_and_ends() {
    let (mut s, fluid): (Shell<Real>, Fluid) = Shell::new(true);
    assert_eq!(fluid, Fluid::Sph);
    assert!(!s.tick(Real(0.1), Real(1.5)));
    assert!(!s.drawn());
    assert_eq!(s.finish(false), AfterFrame::Continue);
    assert!(s.tick(Real(0.1), Real(1.6)));
    assert_eq!(s.finish(true), AfterFrame::Continue);
    assert!(s.tick(Real(0.1), Real(1.7)));
    assert!(s.drawn());
    assert_eq!(s.finish(true), AfterFrame::Switch(Fluid::GpuFlip));
    assert!(!s.tick(Real(0.1), Real(3.4)));
    assert!(s.tick(Real(0.1), Real(3.5)) && s.drawn());
    assert_eq!(s.finish(true), AfterFrame::Switch(Fluid::GpuSmoke));
    assert!(s.tick(Real(0.1), Real(2.0)) && s.drawn());
    assert_eq!(s.finish(true), AfterFrame::Exit);
    assert!(!s.tick(Real(0.1), Real(99.0)));
}

#[test]
fn window_keys_switch_and_shoot() {
    let (mut s, fluid): (Shell<Real>, Fluid) = Shell::new(false);
    assert_eq!(fluid, Fluid::SphCpu);
    assert_eq!(s.key(Key::Digit3, true, false), KeyAction::Switch(Fluid::Flip));
    assert_eq!(s.key(Key::Digit3, true, true), KeyAction::Nothing);
    assert_eq!(s.key(Key::Digit6, false, false), KeyAction::Nothing);
    assert_eq!(s.key(Key::Escape, true, false), KeyAction::Exit);
    assert_eq!(s.key(Key::KeyR, true, false), KeyAction::Nothing);
    assert!(!s.screenshot);
    assert_eq!(s.key(Key::KeyP, true, false), KeyAction::Screenshot);
    assert!(!s.tick(Real(0.01), Real(50.0)));
    assert_eq!(s.fps.0, 60.0 * 0.9 + (1.0 / 0.01) * 0.1);
    assert!(s.drawn() && !s.drawn());
    s.tick(Real(0.0), Real(0.0));
    assert!(s.fps.0 > 1000.0);
}

#[test]
fn smoke_fades_by_the_dissipation() {
    let mut s: Smoke<Real> = Smoke::new(4);
    s.set_buoyancy(Real(0.0));
    s.set_dissipation(Real(2.0));
    s.add_density(2, 3, Real(60.0));
    for want in [15.0f32, 7.5] {
        s.step(Real(0.5));
        for j in 1..=4 {
            for i in 1..=4 {
                let d = if (i, j) == (2, 3) { want } else { 0.0 };
                assert_eq!(s.density_at(i, j).0, d);
            }
        }
    }
}

#[test]
fn smoke_settings_are_kept() {
    let mut s: Smoke<Real> = Smoke::new(4);
    s.set_diff(Real(0.25));
    s.set_visc(Real(0.5));
    s.set_buoyancy(Real(3.0));
    s.set_dissipation(Real(2.0));
    s.set_swirl(Real(7.0));
    s.reset();
    assert_eq!((s.diff.0, s.visc.0, s.buoyancy.0, s.dissipation.0), (0.25, 0.5, 3.0, 2.0));
    assert_eq!(s.swirl().0, 7.0);
}

/// Stirred smoke is neither thicker than the thickest smoke before, nor negative.
#[test]
fn stirred_smoke_keeps_to_its_range() {
    let mut s: Smoke<Real> = Smoke::new(12);
    for i in 3..8 {
        s.add_density(i, 5, Real(10.0 + i as f32));
        s.add_velocity(i, 5, Real(4.0 - i as f32), Real(3.0));
    }
    s.step(Real(0.1));
    let all = |s: &Smoke<Real>| -> Vec<f32> {
        (0..14).flat_map(|j| (0..14).map(move |i| (i, j))).map(|(i, j)| s.density_at(i, j).0).collect()
    };
    let mut top = all(&s).into_iter().fold(0.0f32, f32::max);
    assert!(top > 0.0);
    for _ in 0..20 {
        s.step(Real(0.1));
        let now = all(&s);
        assert!(now.iter().all(|d| *d >= 0.0 && *d <= top * 1.00001));
        top = now.into_iter().fold(0.0, f32::max);
    }
}

/// Water driven against a wall comes to rest there: the faces between it and the
/// border carry nothing after the solve.
#[test]
fn water_does_not_flow_through_the_walls() {
    for (dvx, dvy) in [(-30.0f32, 0.0f32), (0.0, -30.0)] {
        let mut sim: FlipSim<Real> = FlipSim::new(24, 24, Real(1.0));
        sim.config().gravity = [Real(0.0), Real(0.0)];
        sim.config().flip_ratio = Real(0.0);
        sim.add_impulse(Real(dvx), Real(dvy));
        sim.step(Real(0.1));
        let mut beside = 0;
        for (p, v) in sim.particles() {
            let (off, along, into) = if dvx < 0.0 {
                (p[0].0, p[1].0, v[0].0)
            } else {
                (p[1].0, p[0].0, v[1].0)
            };
            if off < 1.01 && along > 3.0 && along < 9.0 {
                beside += 1;
                assert!(into.abs() < 0.4, "{into} into the wall");
            }
        }
        assert!(beside > 10);
    }
}

#[test]
fn stiffness_is_set() {
    let mut sim: Sim<Real> = Sim::new(Real(300.0), Real(200.0));
    let rest = sim.rest_density();
    sim.set_stiffness(Real(123.0));
    assert_eq!((sim.stiffness.0, sim.rest_density()), (123.0, rest));
}

#[test]
fn fluid_without_gravity_stays_put() {
    for (w, h, dt) in [(200.0, 200.0, 0.0004), (300.0, 200.0, 1.0), (451.3, 777.7, 0.01)] {
        let mut sim: Sim<Real> = Sim::new(Real(w), Real(h));
        assert!(!sim.is_empty());
        let start = sim.positions_xy();
        let bounds = Bounds { w: Real(w), h: Real(h), shape: Shape::Rect };
        sim.step(Real(dt), at(0.0, 0.0), &bounds);
        assert_eq!(sim.positions_xy(), start);
        assert!(sim.vel.iter().all(|v| v.x.0 == 0.0 && v.y.0 == 0.0));
    }
}

/// Steps of different lengths, under different gravity and in different boxes.
#[test]
fn fluid_stays_in_its_box() {
    let mut sim: Sim<Real> = Sim::new(Real(300.0), Real(200.0));
    let n = sim.len();
    let strides = [
        (0.0004, 0.0, 1200.0, 300.0, 200.0),
        (0.02, -9e5, 4e4, 300.0, 200.0),
        (0.1, 9e5, 0.0, 90.0, 60.0),
        (0.001, 0.0, -1e6, 16.0, 300.0),
        (0.0008, 1200.0, 1200.0, 400.0, 16.5),
    ];
    for (dt, gx, gy, w, h) in strides {
        let bounds = Bounds { w: Real(w), h: Real(h), shape: Shape::Rect };
        sim.step(Real(dt), at(gx, gy), &bounds);
        assert_eq!(sim.len(), n);
        for (p, v) in sim.pos.iter().zip(&sim.vel) {
            assert!(p.x.0 >= 8.0 && p.x.0 <= w - 8.0 && p.y.0 >= 8.0 && p.y.0 <= h - 8.0);
            assert!(speed(*v) <= 1500.0 * 1.00001);
        }
    }
}

#[test]
fn shaken_fluid_keeps_to_the_speed_limit() {
    for shape in [Shape::Rect, Shape::Circle] {
        let mut sim: Sim<Real> = Sim::new(Real(300.0), Real(200.0));
        let bounds = Bounds { w: Real(300.0), h: Real(200.0), shape };
        sim.add_impulse(at(4e5, -3e5));
        for _ in 0..5 {
            sim.step(Real(0.0004), at(0.0, 1200.0), &bounds);
            assert!(sim.vel.iter().all(|v| speed(*v) <= 1500.0 * 1.00001));
        }
        assert!(sim.vel.iter().any(|v| speed(*v) > 500.0));
    }
}

/// Whoever is within reach of a particle is among those that the grid gives.
#[test]
fn neighbour_search_misses_nobody() {
    let (cols, rows) = (8usize, 6usize);
    let pos: Vec<Vec2<Real>> = (0..120)
        .map(|i| at(((i * 37) % 111) as f32, ((i * 53) % 79) as f32))
        .collect();
    let mut grid: Vec<Vec<usize>> = vec![Vec::new(); cols * rows];
    for (i, p) in pos.iter().enumerate() {
        let (cx, cy) = cell_of(*p, cols, rows);
        grid[cy * cols + cx].push(i);
    }
    let mut pairs = 0;
    for p in &pos {
        let near = for_neighbors(*p, &grid, cols, rows);
        for (j, q) in pos.iter().enumerate() {
            let (dx, dy) = (p.x.0 - q.x.0, p.y.0 - q.y.0);
            if dx * dx + dy * dy < 256.0 {
                pairs += 1;
                assert!(near.contains(&j));
            }
        }
    }
    assert!(pairs > pos.len());
}

#[test]
fn mouse_is_followed_and_rests_between_frames() {
    let mut input: Input<Real> = Input::new();
    input.set_mouse((Real(4.0), Real(9.0)));
    input.set_mouse_down(true);
    assert_eq!(input.pointer(), (Real(4.0), Real(9.0)));
    assert!(input.dragging());
    for _ in 0..2 {
        input.end_frame();
        assert_eq!(input.mouse_delta(), (Real(0.0), Real(0.0)));
        assert_eq!(input.pointer(), (Real(4.0), Real(9.0)));
        assert!(input.dragging());
    }
    input.set_mouse((Real(5.0), Real(7.0)));
    assert_eq!(input.mouse_delta(), (Real(1.0), Real(-2.0)));
    input.set_mouse_down(false);
    assert!(!input.dragging());
}

#[test]
fn smoke_frames_follow_the_clock() {
    let mut b: GpuSmokeBackend<Real> = GpuSmokeBackend::new();
    let input: Input<Real> = Input::new();
    let f = b.update(Real(0.01), &input);
    assert_eq!((f.params.dt.0, f.commands.len()), (0.01, 90));
    let f = b.update(Real(2.0), &input);
    assert_eq!((f.params.dt.0, f.commands.len()), (1.0 / 30.0, 90));
    let f = b.update(Real(0.0), &input);
    assert!(f.commands.is_empty());
    let f = b.update(Real(-1.0), &input);
    assert!(f.commands.is_empty());
}

#[test]
fn restarts_put_the_particles_back_at_rest() {
    let s: GpuSim<Real> = GpuSim::new(Real(300.0), Real(200.0));
    let r = s.reset();
    assert_eq!((r.into, r.zeroed), (SphBuffer::Pos, SphBuffer::Vel));
    assert_eq!((r.start.len() as u32, r.bytes), (s.num(), s.num() as u64 * 8));
    let f: GpuFlip<Real> = GpuFlip::new(64, 48, Real(1.0));
    let r = f.reset();
    assert_eq!((r.into, r.zeroed), (FlipBuffer::Pos, FlipBuffer::Vel));
    assert_eq!((r.start.len() as u32, r.bytes), (f.num(), f.num() as u64 * 8));
}

#[test]
fn pipelines_are_described() {
    let onto = |topology, reads| Style {
        target: DrawTarget::Surface,
        blend: Blend::Over,
        topology,
        reads,
    };
    let blobs = Style {
        target: DrawTarget::Field,
        blend: Blend::Add,
        topology: Topology::Triangles,
        reads: Reads::Particles,
    };
    let want = [
        (DrawStage::Dots, onto(Topology::Triangles, Reads::Particles), ("vs", "fs")),
        (DrawStage::Blobs, blobs, ("vs_blob", "fs_blob")),
        (
            DrawStage::Composite,
            onto(Topology::Triangles, Reads::SampledField),
            ("vs_full", "fs_threshold"),
        ),
        (
            DrawStage::Contour,
            onto(Topology::Lines, Reads::FieldTexels),
            ("vs_contour", "fs_contour"),
        ),
        (DrawStage::Fill, onto(Topology::Triangles, Reads::FieldTexels), ("vs_fill", "fs_fill")),
    ];
    for (stage, style, entries) in want {
        assert_eq!((stage.style(), stage.entries()), (style, entries));
    }
}

/// A shear flow has no divergence, and a projection leaves it as it is inside.
#[test]
fn projection_leaves_a_shear_flow_alone() {
    let n = 6usize;
    let size = (n + 2) * (n + 2);
    let mut u: Vec<Real> = (0..size).map(|k| Real((k / (n + 2)) as f32 * 1.5 - 4.0)).collect();
    let mut v: Vec<Real> = (0..size).map(|k| Real((k % (n + 2)) as f32 * -0.75)).collect();
    let (u0, v0) = (u.clone(), v.clone());
    let mut p = vec![Real(7.0); size];
    let mut div = vec![Real(-3.0); size];
    project(n, &mut u, &mut v, &mut p, &mut div);
    for j in 1..=n {
        for i in 1..=n {
            let k = ix(i, j, n);
            assert_eq!((u[k], v[k]), (u0[k], v0[k]));
        }
    }
    assert!(p.iter().chain(&div).all(|x| x.0 == 0.0));
}

/// A flow out of a cell is slowed by a projection.
#[test]
fn projection_slows_a_spring() {
    let n = 6usize;
    let size = (n + 2) * (n + 2);
    let mut u = vec![Real(0.0); size];
    let mut v = vec![Real(0.0); size];
    u[ix(4, 3, n)] = Real(1.0);
    u[ix(2, 3, n)] = Real(-1.0);
    let mut p = vec![Real(0.0); size];
    let mut div = vec![Real(0.0); size];
    project(n, &mut u, &mut v, &mut p, &mut div);
    assert_eq!(div[ix(3, 3, n)].0, -0.5 * (1.0 / 6.0) * 2.0);
    assert!(u[ix(4, 3, n)].0 < 1.0 && u[ix(2, 3, n)].0 > -1.0);
}
