use obamify::assignment::{apply, check_permutation, invert};
use obamify::control::{
    finish_genetic, make_preset, process_optimal, start_genetic, Action, GenerationSettings,
    ProgressMsg, RunControl,
};
use obamify::cost::{assignment_cost, luminance_weights, slot_cost};
use obamify::error::EngineError;
use obamify::genetic::{crossover, identity, mutate, shuffle, GeneticParams, GeneticSolver};
use obamify::geometry::{crop_pixels, crop_rect, normalize, CropRect, CropScale};
use obamify::optimal::{rank_order, solve_optimal};
use obamify::preset::UnprocessedPreset;
use obamify::rng::Xorshift;

fn grey_image(values: &[u8]) -> Vec<u8> {
    let mut v = Vec::new();
    for &x in values {
        v.push(x);
        v.push(x);
        v.push(x);
    }
    v
}

#[test]
fn optimal_matches_worked_example() {
    let sw = vec![10u8, 200, 50, 150];
    let tw = vec![0u8, 100, 50, 200];
    assert_eq!(rank_order(&sw), vec![0, 2, 3, 1]);
    assert_eq!(rank_order(&tw), vec![0, 2, 1, 3]);
    assert_eq!(solve_optimal(&sw, &tw), vec![0, 3, 2, 1]);
}

#[test]
fn optimal_is_a_permutation_for_several_sizes() {
    for n in 1usize..6 {
        let cells = n * n;
        let sw: Vec<u8> = (0..cells).map(|i| ((i * 37 + 11) % 256) as u8).collect();
        let tw: Vec<u8> = (0..cells).map(|i| ((i * 91 + 3) % 256) as u8).collect();
        let a = solve_optimal(&sw, &tw);
        assert!(check_permutation(&a, cells));
    }
}

#[test]
fn optimal_on_empty_input_is_empty() {
    assert!(solve_optimal(&vec![], &vec![]).is_empty());
}

#[test]
fn optimal_ties_keep_index_order() {
    let sw = vec![7u8; 5];
    let tw = vec![3u8; 5];
    assert_eq!(solve_optimal(&sw, &tw), vec![0, 1, 2, 3, 4]);
    assert_eq!(solve_optimal(&sw, &tw), solve_optimal(&sw, &tw));
}

#[test]
fn optimal_costs_no_more_than_shuffles() {
    let sw: Vec<u8> = vec![5, 250, 17, 99, 128, 3, 64, 200, 31];
    let tw: Vec<u8> = vec![90, 1, 255, 40, 40, 180, 7, 66, 120];
    let best = assignment_cost(&sw, &tw, &solve_optimal(&sw, &tw));
    let mut rng = Xorshift::new(42);
    for _ in 0..50 {
        let mut p = identity(9);
        shuffle(&mut p, &mut rng);
        assert!(check_permutation(&p, 9));
        assert!(best <= assignment_cost(&sw, &tw, &p));
    }
}

#[test]
fn slot_and_assignment_costs_are_exact() {
    assert_eq!(slot_cost(10, 200), 36100);
    assert_eq!(slot_cost(200, 10), 36100);
    assert_eq!(slot_cost(255, 0), 65025);
    let sw = vec![10u8, 200, 50, 150];
    let tw = vec![0u8, 100, 50, 200];
    // slots: (10-0)^2 + (150-100)^2 + (50-50)^2 + (200-200)^2
    assert_eq!(assignment_cost(&sw, &tw, &vec![0, 3, 2, 1]), 100 + 2500);
    assert_eq!(assignment_cost(&sw, &tw, &vec![0, 1, 2, 3]), 100 + 10000 + 0 + 2500);
}

#[test]
fn luminance_uses_rec709_weights() {
    let rgb = vec![255u8, 255, 255, 10, 20, 30, 0, 0, 0];
    assert_eq!(luminance_weights(&rgb), vec![255, 18, 0]);
}

#[test]
fn apply_then_inverse_round_trips() {
    let src: Vec<u8> = (0u8..12).collect();
    let a = vec![2usize, 0, 3, 1];
    let out = apply(&src, &a).unwrap();
    assert_eq!(out, vec![6, 7, 8, 0, 1, 2, 9, 10, 11, 3, 4, 5]);
    let inv = invert(&a);
    assert_eq!(inv, vec![1, 3, 0, 2]);
    assert_eq!(apply(&out, &inv).unwrap(), src);
}

#[test]
fn apply_rejects_duplicate_index() {
    let src: Vec<u8> = (0u8..12).collect();
    assert_eq!(apply(&src, &vec![0, 1, 1, 3]), Err(EngineError::MalformedAssignment));
}

#[test]
fn apply_rejects_out_of_range_or_wrong_length() {
    let src: Vec<u8> = (0u8..12).collect();
    assert_eq!(apply(&src, &vec![0, 1, 2, 4]), Err(EngineError::MalformedAssignment));
    assert_eq!(apply(&src, &vec![0, 1, 2]), Err(EngineError::MalformedAssignment));
}

#[test]
fn check_permutation_cases() {
    assert!(check_permutation(&vec![], 0));
    assert!(check_permutation(&vec![1, 0, 2], 3));
    assert!(!check_permutation(&vec![1, 1, 2], 3));
    assert!(!check_permutation(&vec![0, 1, 3], 3));
    assert!(!check_permutation(&vec![0, 1], 3));
}

#[test]
fn crossover_keeps_segment_and_permutation() {
    let pa = vec![0usize, 1, 2, 3, 4, 5];
    let pb = vec![5usize, 4, 3, 2, 1, 0];
    let child = crossover(&pa, &pb, 1, 4);
    assert_eq!(&child[1..4], &[4, 3, 2]);
    assert!(check_permutation(&child, 6));
    let mut m = child.clone();
    let mut rng = Xorshift::new(9);
    mutate(&mut m, &mut rng, 10);
    assert!(check_permutation(&m, 6));
}

#[test]
fn xorshift_first_value() {
    let mut rng = Xorshift::new(1);
    assert_eq!(rng.next_u64(), 1082269761);
    assert_eq!(rng.state, 1082269761);
    let mut z = Xorshift::new(0);
    assert_ne!(z.next_u64(), 0);
    for bound in 1usize..20 {
        assert!(rng.below(bound) < bound);
    }
}

#[test]
fn genetic_best_cost_never_increases() {
    let sw: Vec<u8> = (0..16).map(|i| ((i * 53 + 7) % 256) as u8).collect();
    let tw: Vec<u8> = (0..16).map(|i| ((i * 29 + 100) % 256) as u8).collect();
    let params = GeneticParams { population_size: 6, mutation_swaps: 2 };
    let mut g = GeneticSolver::new(sw.clone(), tw.clone(), params, 7).unwrap();
    let optimal_cost = assignment_cost(&sw, &tw, &solve_optimal(&sw, &tw));
    assert!(g.best_cost <= optimal_cost);
    let mut last = g.best_cost;
    for gen in 1..=20u64 {
        g.step();
        assert_eq!(g.generation, gen);
        assert!(g.best_cost <= last);
        assert!(g.best_cost <= optimal_cost);
        assert_eq!(assignment_cost(&sw, &tw, &g.best), g.best_cost);
        assert!(check_permutation(&g.best, 16));
        last = g.best_cost;
    }
    assert_eq!(g.best_cost, optimal_cost);
}

#[test]
fn genetic_rejects_bad_settings() {
    let params = GeneticParams { population_size: 0, mutation_swaps: 1 };
    assert!(matches!(
        GeneticSolver::new(vec![1, 2], vec![1, 2], params, 1),
        Err(EngineError::InvalidSettings)
    ));
    let params = GeneticParams { population_size: 2, mutation_swaps: 1 };
    assert!(matches!(
        GeneticSolver::new(vec![1, 2], vec![1], params, 1),
        Err(EngineError::InvalidSettings)
    ));
}

#[test]
fn cancel_before_completion_gives_one_cancel() {
    let mut c = RunControl::new(3);
    let flags = [false, true, false, true, true];
    let actions: Vec<Action> = flags.iter().map(|&f| c.next_action(f)).collect();
    assert_eq!(
        actions,
        vec![Action::RunGeneration, Action::Cancel, Action::Idle, Action::Idle, Action::Idle]
    );
    assert_eq!(actions.iter().filter(|a| **a == Action::Cancel).count(), 1);
    assert!(!actions.contains(&Action::Finish));
}

#[test]
fn uncancelled_run_finishes_once() {
    let mut c = RunControl::new(2);
    let actions: Vec<Action> = (0..6).map(|_| c.next_action(false)).collect();
    assert_eq!(
        actions,
        vec![
            Action::RunGeneration,
            Action::RunGeneration,
            Action::Finish,
            Action::Idle,
            Action::Idle,
            Action::Idle
        ]
    );
}

#[test]
fn terminal_messages() {
    assert!(ProgressMsg::Cancelled.is_terminal());
    assert!(ProgressMsg::Error("x".to_string()).is_terminal());
    assert!(!ProgressMsg::Progress { done: 1, total: 2 }.is_terminal());
    assert!(!ProgressMsg::UpdateAssignments(vec![0]).is_terminal());
}

#[test]
fn crop_rect_identity_and_invalid() {
    let id = CropScale::identity();
    assert_eq!(crop_rect(6, 4, id), Ok(CropRect { x: 1, y: 0, side: 4 }));
    assert_eq!(crop_rect(4, 4, CropScale { offset_x: 5000, offset_y: 0, scale: 5000 }), Ok(CropRect { x: 2, y: 0, side: 2 }));
    assert_eq!(crop_rect(4, 4, CropScale { offset_x: 0, offset_y: 0, scale: 0 }), Err(EngineError::InvalidCrop));
    assert_eq!(crop_rect(4, 4, CropScale { offset_x: 7500, offset_y: 0, scale: 5000 }), Err(EngineError::InvalidCrop));
    assert_eq!(crop_rect(0, 4, id), Err(EngineError::InvalidCrop));
}

#[test]
fn crop_pixels_copies_region() {
    // 3x2 image, pixel value = index
    let img = grey_image(&[0, 1, 2, 3, 4, 5]);
    let out = crop_pixels(&img, 3, 2, CropRect { x: 1, y: 0, side: 2 });
    assert_eq!(out, grey_image(&[1, 2, 4, 5]));
}

#[test]
fn normalize_same_size_is_exact_copy() {
    let img = grey_image(&[9, 8, 7, 6]);
    assert_eq!(normalize(&img, 2, 2, CropScale::identity(), 2), Ok(img.clone()));
    let out = normalize(&img, 2, 2, CropScale::identity(), 3).unwrap();
    assert_eq!(out.len(), 27);
    assert_eq!(normalize(&img, 2, 2, CropScale::identity(), 0), Err(EngineError::InvalidSettings));
    assert_eq!(normalize(&img, 3, 2, CropScale::identity(), 2), Err(EngineError::InvalidSettings));
}

fn sample_source() -> UnprocessedPreset {
    UnprocessedPreset {
        name: "sample".to_string(),
        width: 2,
        height: 2,
        source_img: grey_image(&[10, 200, 50, 150]),
    }
}

#[test]
fn process_optimal_builds_preset() {
    let mut settings = GenerationSettings::default(1, "sample".to_string());
    settings.sidelen = 2;
    let tw = vec![0u8, 100, 50, 200];
    let p = process_optimal(&sample_source(), &settings, &tw, false).unwrap();
    assert_eq!(p.assignments, vec![0, 3, 2, 1]);
    assert_eq!(p.inner.width, 2);
    assert_eq!(p.inner.source_img, grey_image(&[10, 200, 50, 150]));
    assert!(p.target_img.is_none());
}

#[test]
fn process_optimal_errors() {
    let mut settings = GenerationSettings::default(1, "sample".to_string());
    settings.sidelen = 2;
    let tw = vec![0u8, 100, 50, 200];
    assert!(matches!(process_optimal(&sample_source(), &settings, &tw, true), Err(EngineError::Cancelled)));
    assert!(matches!(process_optimal(&sample_source(), &settings, &vec![1, 2], false), Err(EngineError::InvalidSettings)));
    settings.source_crop_scale = CropScale { offset_x: 0, offset_y: 0, scale: 1000 };
    assert!(matches!(process_optimal(&sample_source(), &settings, &tw, false), Err(EngineError::InvalidCrop)));
}

#[test]
fn genetic_run_never_worse_than_optimal() {
    let mut settings = GenerationSettings::default(2, "sample".to_string());
    settings.sidelen = 2;
    let tw = vec![0u8, 100, 50, 200];
    let params = GeneticParams { population_size: 4, mutation_swaps: 1 };
    let (grid, mut solver) = start_genetic(&sample_source(), &settings, &tw, params, 3).unwrap();
    for _ in 0..5 {
        solver.step();
    }
    let p = finish_genetic(&settings.name, 2, grid, &solver);
    let weights = luminance_weights(&p.inner.source_img);
    let optimal = solve_optimal(&weights, &tw);
    assert!(assignment_cost(&weights, &tw, &p.assignments) <= assignment_cost(&weights, &tw, &optimal));
}

#[test]
fn make_preset_keeps_fields() {
    let p = make_preset(&"n".to_string(), 1, vec![1, 2, 3], vec![0]);
    assert_eq!(p.inner.name, "n");
    assert_eq!(p.assignments, vec![0]);
    assert_eq!(p.inner.height, 1);
}

#[test]
fn shuffle_is_the_seeded_fisher_yates() {
    let mut a = vec![0usize, 1, 2, 3, 4];
    let mut rng = Xorshift::new(1);
    shuffle(&mut a, &mut rng);
    assert_eq!(a, vec![2, 3, 0, 4, 1]);
    assert_eq!(rng.state, 17678023832001937445);
}

#[test]
fn mutate_applies_seeded_swaps() {
    let mut a = vec![0usize, 1, 2, 3, 4];
    let mut rng = Xorshift::new(9);
    mutate(&mut a, &mut rng, 3);
    assert_eq!(a, vec![3, 4, 1, 0, 2]);
    assert_eq!(rng.state, 16859052669814937742);
}

#[test]
fn crossover_keeps_entries_not_placed_by_segment() {
    let pa = vec![0usize, 1, 2, 3, 4, 5];
    let pb = vec![1usize, 0, 3, 2, 5, 4];
    // segment [2, 4) places 3 and 2; entries 0, 1, 4, 5 of pa stay put
    let child = crossover(&pa, &pb, 2, 4);
    assert_eq!(child, vec![0, 1, 3, 2, 4, 5]);
}

#[test]
fn step_carries_elite_into_slot_zero() {
    let sw: Vec<u8> = (0..9).map(|i| ((i * 71 + 5) % 256) as u8).collect();
    let tw: Vec<u8> = (0..9).map(|i| ((i * 13 + 40) % 256) as u8).collect();
    let params = GeneticParams { population_size: 5, mutation_swaps: 3 };
    let mut g = GeneticSolver::new(sw, tw, params, 11).unwrap();
    for _ in 0..4 {
        let best = g.best.clone();
        g.step();
        assert_eq!(g.population.len(), 5);
        assert_eq!(g.population[0], best);
        let cheapest = g.costs.iter().min().copied().unwrap();
        assert_eq!(g.best_cost, cheapest.min(g.best_cost));
    }
}

#[test]
fn exhausted_budget_finishes_unless_cancelled() {
    let mut c = RunControl::new(10);
    assert_eq!(c.next_action_within_budget(false, false), Action::RunGeneration);
    assert_eq!(c.next_action_within_budget(false, true), Action::Finish);
    assert_eq!(c.next_action_within_budget(false, true), Action::Idle);
    let mut d = RunControl::new(10);
    assert_eq!(d.next_action_within_budget(true, true), Action::Cancel);
    assert_eq!(d.next_action_within_budget(false, false), Action::Idle);
}
