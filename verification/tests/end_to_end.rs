//! The engine driven by a real-valued stress model, as an application would
//! drive it.

use std::cell::RefCell;

use crack_simulator::edge::EdgeIndex;
use crack_simulator::graph::Graph;
use crack_simulator::node::NodeIndex;

const CRACK_THRESHOLD: f32 = 1.9;
const PROPOGATION_CONST: f32 = 0.9;
const DIR_PROPAGATION: f32 = 10.0;
const WEAKEST_PATH_BIAS: f32 = 3.0;
const MIN_STRESS: f32 = 0.0000001;

#[derive(Clone, Copy, Default, PartialEq, Debug)]
struct PVec {
    x: f32,
    y: f32,
}

impl PVec {
    fn dot(self, o: PVec) -> f32 {
        self.x * o.x + self.y * o.y
    }

    fn modulus(self) -> f32 {
        self.dot(self).sqrt()
    }

    fn norm(self) -> PVec {
        let m = self.modulus();
        if m != 0.0 {
            PVec { x: self.x / m, y: self.y / m }
        } else {
            PVec::default()
        }
    }

    fn is_zero(self) -> bool {
        self.x == 0.0 && self.y == 0.0
    }

    fn scale(self, s: f32) -> PVec {
        PVec { x: self.x * s, y: self.y * s }
    }

    fn plus(self, o: PVec) -> PVec {
        PVec { x: self.x + o.x, y: self.y + o.y }
    }

    fn neg(self) -> PVec {
        PVec { x: -self.x, y: -self.y }
    }
}

fn ty_to_prop_vec(ty: usize) -> PVec {
    match ty {
        0 => PVec { x: 0.0, y: 1.0 },
        1 => PVec { x: -3_f32.sqrt() / 2.0, y: 0.5 },
        _ => PVec { x: 3_f32.sqrt() / 2.0, y: 0.5 },
    }
}

fn weak_path_bias_fn(ratio: f32) -> f32 {
    0.5 * (WEAKEST_PATH_BIAS * (ratio - 1.0)).tanh() + 0.5
}

fn combine_stress(s: &mut f32, v: &mut PVec, stress: f32, dir: PVec) {
    if dir.is_zero() || stress == 0.0 {
        return;
    }
    if v.is_zero() {
        *s += stress;
        *v = dir;
        return;
    }
    *v = v.scale(*s).plus(dir.scale(stress)).norm();
    *s += stress;
}

#[derive(Clone, Copy, Default)]
struct EdgeLoad {
    prop_vec: PVec,
    prop_vec_update: PVec,
    stress: f32,
    stress_update: f32,
}

impl EdgeLoad {
    fn add_stress_update(&mut self, stress: f32, dir: PVec) {
        combine_stress(&mut self.stress_update, &mut self.prop_vec_update, stress, dir);
    }

    fn commit_updates(&mut self) {
        combine_stress(&mut self.stress, &mut self.prop_vec, self.stress_update, self.prop_vec_update);
        self.stress_update = 0.0;
        self.prop_vec_update = PVec::default();
    }
}

/// A small generator, so that every run sees the same numbers.
struct Lcg(u64);

impl Lcg {
    fn next(&mut self) -> f32 {
        self.0 = self.0.wrapping_mul(6364136223846793005).wrapping_add(1442695040888963407);
        ((self.0 >> 40) as f32) / ((1u64 << 24) as f32)
    }
}

struct StressField {
    cols: usize,
    loads: Vec<EdgeLoad>,
    rng: Lcg,
    worst_modulus_error: f32,
}

impl StressField {
    fn new(rows: usize, cols: usize, seed: u64) -> Self {
        let mut rng = Lcg(seed);
        let mut loads = vec![EdgeLoad::default(); rows * cols * 3];
        for l in loads.iter_mut() {
            l.stress = rng.next();
        }
        StressField { cols, loads, rng, worst_modulus_error: 0.0 }
    }

    fn load(&mut self, i: EdgeIndex) -> &mut EdgeLoad {
        &mut self.loads[(i.row * self.cols + i.col) * 3 + i.ty]
    }

    fn add_stress(&mut self, i: EdgeIndex, amount: f32) {
        self.load(i).add_stress_update(amount, ty_to_prop_vec(i.ty));
    }

    fn watch(&mut self, v: PVec) {
        if !v.is_zero() {
            self.worst_modulus_error = self.worst_modulus_error.max((v.modulus() - 1.0).abs());
        }
    }

    fn commit(&mut self, i: EdgeIndex, cracked: bool) -> bool {
        let draw = self.rng.next();
        let load = self.load(i);
        if cracked {
            if load.stress_update == 0.0 {
                return false;
            }
            load.commit_updates();
            let v = load.prop_vec;
            self.watch(v);
            return true;
        }
        load.commit_updates();
        let over = load.stress > CRACK_THRESHOLD;
        if over && !load.prop_vec.is_zero() {
            let mut adjustment = ty_to_prop_vec(i.ty);
            if adjustment.dot(load.prop_vec) < 0.0 {
                adjustment = adjustment.neg();
            }
            load.prop_vec = load.prop_vec.plus(adjustment.scale(DIR_PROPAGATION * draw)).norm();
        }
        let v = load.prop_vec;
        self.watch(v);
        over
    }

    fn give(&mut self, from_stress: f32, dir: PVec, pair: [(f32, usize); 2], to: &[Option<EdgeIndex>; 4], flags: &mut [bool; 4]) {
        let first = weak_path_bias_fn(pair[0].0 / pair[1].0);
        let scaled = [first, 1.0 - first];
        for j in 0..2 {
            let amt = scaled[j] * from_stress * PROPOGATION_CONST;
            if amt > MIN_STRESS {
                let k = pair[j].1;
                self.load(to[k].unwrap()).add_stress_update(amt, dir);
                flags[k] = true;
            }
        }
    }

    fn propagate(&mut self, i: EdgeIndex, to: [Option<EdgeIndex>; 4]) -> [bool; 4] {
        let mut flags = [false; 4];
        let source = *self.load(i);
        if source.prop_vec.is_zero() {
            let mut dir = ty_to_prop_vec(i.ty);
            for side in 0..2 {
                let k = 2 * side;
                if let (Some(a), Some(b)) = (to[k], to[k + 1]) {
                    let pair = [(self.load(a).stress.max(MIN_STRESS), k), (self.load(b).stress.max(MIN_STRESS), k + 1)];
                    self.give(source.stress, dir, pair, &to, &mut flags);
                }
                dir = dir.neg();
            }
        } else {
            let dir = source.prop_vec;
            let inversions: [f32; 4] = match i.ty {
                0 => [1.0, 1.0, -1.0, -1.0],
                1 => [-1.0, 1.0, -1.0, 1.0],
                _ => [1.0, -1.0, 1.0, -1.0],
            };
            let mut ahead: Vec<(f32, usize)> = Vec::new();
            for k in 0..4 {
                if let Some(e) = to[k] {
                    let amt = ty_to_prop_vec(e.ty).dot(dir) * inversions[k];
                    if amt > 0.0 {
                        ahead.push((amt.max(MIN_STRESS), k));
                    }
                }
            }
            assert!(ahead.len() < 3);
            if ahead.len() == 2 {
                self.give(source.stress, dir, [ahead[0], ahead[1]], &to, &mut flags);
            }
        }
        let load = self.load(i);
        load.prop_vec = PVec::default();
        load.stress = 0.0;
        flags
    }
}

struct Run {
    ticks: usize,
    triangles: Vec<NodeIndex>,
    worst_modulus_error: f32,
    cracked: usize,
    stimulus_cracked: bool,
}

/// Builds a lattice, lets it settle, puts `amount` on each of `stimuli` and
/// runs ticks until the queue is empty.
fn run(rows: usize, cols: usize, seed: u64, stimuli: &[EdgeIndex], amount: f32, with_collector: bool) -> Run {
    let mut g = Graph::new(rows, cols);
    let field = RefCell::new(StressField::new(rows, cols, seed));
    let commit = |i: EdgeIndex, cracked: bool| field.borrow_mut().commit(i, cracked);
    let share = |i: EdgeIndex, to: [Option<EdgeIndex>; 4]| field.borrow_mut().propagate(i, to);

    g.main_loop(&commit, &share);
    assert_eq!(g.get_update_amt(), 0);

    for i in stimuli {
        g.add_stress(*i).unwrap();
        field.borrow_mut().add_stress(*i, amount);
    }

    let mut triangles = Vec::new();
    let mut ticks = 0;
    while g.get_update_amt() != 0 {
        assert!(ticks < 10_000, "the queue never empties");
        if with_collector {
            g.update_graph_edge_stresses(&commit, Some(&mut triangles));
            g.update_graph_stress_propagation(&share);
        } else {
            g.main_loop(&commit, &share);
        }
        ticks += 1;
    }

    let mut cracked = 0;
    for row in 0..rows {
        for col in 0..cols {
            for ty in 0..3 {
                if let Some(e) = g.get_edge(EdgeIndex { row, col, ty }) {
                    if e.cracked {
                        cracked += 1;
                    }
                }
            }
        }
    }
    let stimulus_cracked = stimuli.iter().all(|i| g.get_edge(*i).unwrap().cracked);
    let worst = field.borrow().worst_modulus_error;
    Run { ticks, triangles, worst_modulus_error: worst, cracked, stimulus_cracked }
}

#[test]
fn stress_above_threshold_cracks_and_dies_out() {
    let stimulus = EdgeIndex { row: 5, col: 5, ty: 0 };
    for seed in 1..20 {
        let out = run(10, 10, seed, &[stimulus], 2.0, true);
        assert!(out.ticks >= 1);
        assert!(out.stimulus_cracked);
        assert!(out.cracked >= 1);
        // An interior edge borders two triangles.
        assert!(out.triangles.len() >= 6);
        assert_eq!(out.triangles.len() % 3, 0);
        assert_eq!(
            &out.triangles[..6],
            &[
                NodeIndex { row: 4, col: 6 },
                NodeIndex { row: 5, col: 5 },
                NodeIndex { row: 5, col: 6 },
                NodeIndex { row: 5, col: 5 },
                NodeIndex { row: 6, col: 6 },
                NodeIndex { row: 5, col: 6 },
            ]
        );
    }
}

#[test]
fn main_loop_alone_empties_the_queue() {
    let stimulus = EdgeIndex { row: 5, col: 5, ty: 0 };
    for seed in 1..20 {
        let out = run(10, 10, seed, &[stimulus], 2.0, false);
        assert!(out.ticks >= 1);
        assert!(out.stimulus_cracked);
        assert!(out.triangles.is_empty());
    }
}

#[test]
fn stress_below_threshold_cracks_nothing() {
    let stimulus = EdgeIndex { row: 5, col: 5, ty: 0 };
    let out = run(10, 10, 7, &[stimulus], 0.5, true);
    // The edge starts with less than 1 and receives 0.5: it holds.
    assert_eq!(out.ticks, 1);
    assert_eq!(out.cracked, 0);
    assert!(out.triangles.is_empty());
}

#[test]
fn heavy_stress_spreads_and_dies_out() {
    let stimuli = [
        EdgeIndex { row: 5, col: 5, ty: 0 },
        EdgeIndex { row: 10, col: 12, ty: 1 },
        EdgeIndex { row: 14, col: 3, ty: 2 },
    ];
    for seed in 1..6 {
        let out = run(20, 20, seed, &stimuli, 5000.0, true);
        assert!(out.stimulus_cracked);
        assert!(out.cracked > 10);
        assert_eq!(out.triangles.len() % 3, 0);
        assert!(out.triangles.len() >= 3 * out.cracked);
    }
}

#[test]
fn directions_stay_unit_vectors() {
    let stimuli = [
        EdgeIndex { row: 5, col: 5, ty: 0 },
        EdgeIndex { row: 6, col: 5, ty: 1 },
        EdgeIndex { row: 6, col: 6, ty: 2 },
        EdgeIndex { row: 5, col: 5, ty: 0 },
    ];
    for seed in 1..10 {
        let out = run(12, 12, seed, &stimuli, 300.0, true);
        assert!(out.worst_modulus_error < 0.01);
    }
}

#[test]
fn weak_path_bias_splits_evenly_between_equals() {
    assert_eq!(weak_path_bias_fn(1.0), 0.5);
    assert_eq!(1.0 - weak_path_bias_fn(1.0), 0.5);
    assert!(weak_path_bias_fn(0.5) < 0.5);
    assert!(weak_path_bias_fn(2.0) > 0.5);
    // Towards ratio 0 the split stays inside (0, 1).
    assert!(weak_path_bias_fn(0.0) > 0.0 && weak_path_bias_fn(0.0) < 0.01);
    assert!(weak_path_bias_fn(1.5) < 1.0 && weak_path_bias_fn(1.5) > 0.9);
}

#[test]
fn combination_keeps_unit_length_and_adds_magnitudes() {
    let mut s = 0.0;
    let mut v = PVec::default();
    combine_stress(&mut s, &mut v, 0.0, ty_to_prop_vec(1));
    assert!(s == 0.0 && v.is_zero());
    combine_stress(&mut s, &mut v, 4.0, PVec::default());
    assert!(s == 0.0 && v.is_zero());
    combine_stress(&mut s, &mut v, 2.0, ty_to_prop_vec(0));
    assert!(s == 2.0 && v == ty_to_prop_vec(0));
    combine_stress(&mut s, &mut v, 2.0, ty_to_prop_vec(2));
    assert_eq!(s, 4.0);
    assert!((v.modulus() - 1.0).abs() < 0.01);
    // Equal weights: the blend points halfway between the two directions.
    assert!((v.x - 0.5).abs() < 1e-5 && (v.y - 3_f32.sqrt() / 2.0).abs() < 1e-5);
}
