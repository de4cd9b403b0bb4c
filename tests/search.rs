use keygen::annealing::{accept_transition, get_simulation_range, N};
use keygen::config::{Command, Config};
use keygen::corpus::Corpus;
use keygen::layout::LayoutPermutations;
use keygen::presets::{qwerty_layout, rsthd_layout};
use keygen::simulator::{
    best_of, draw_perturbations, index_of_min, refine, run, simulated_annealing, AnnealState,
};
use rand::{SeedableRng, StdRng};

fn config(swaps: usize, repetition: usize) -> Config {
    Config {
        debug: false,
        swaps,
        command: Command::Refine,
        corpus_path: String::new(),
        repetition,
        layout: qwerty_layout(),
        output: None,
    }
}

const TEXT: &str = "the quick brown fox jumps over the lazy dog and the cat";

#[test]
fn simulation_range_covers_every_iteration() {
    let r = get_simulation_range();
    assert_eq!(r.start, 1);
    assert_eq!(r.end, N + 1);
    assert_eq!(r.count(), 15000);
}

#[test]
fn acceptance_rule() {
    assert!(accept_transition(-5, 0));
    assert!(accept_transition(0, 0));
    assert!(accept_transition(3, 4));
    assert!(!accept_transition(4, 4));
    assert!(!accept_transition(1, 0));
}

#[test]
fn anneal_step_tracks_the_best() {
    let a = qwerty_layout();
    let b = rsthd_layout();
    let mut s = AnnealState::new(a, 100);
    // a worse move, accepted by its threshold: current moves, best stays
    assert!(s.step(b, 120, 30));
    assert_eq!(s.current_penalty, 120);
    assert_eq!(s.best_penalty, 100);
    assert_eq!(s.best, a);
    // a worse move, rejected
    assert!(!s.step(a, 150, 30));
    assert_eq!(s.current_penalty, 120);
    // an improvement below the best
    assert!(s.step(a, 90, 0));
    assert_eq!(s.best_penalty, 90);
}

#[test]
fn annealing_never_ends_worse_than_it_started() {
    let corpus = Corpus::from_text(TEXT, &rsthd_layout());
    let cfg = config(2, 1);
    let mut rng = StdRng::from_seed(&[1usize, 2, 3][..]);
    let perturbations = draw_perturbations(&mut rng, cfg.swaps);
    assert_eq!(perturbations.len(), N);
    assert!(perturbations.iter().all(|p| 1 <= p.len() && p.len() <= 2));
    assert!(perturbations
        .iter()
        .flatten()
        .all(|s| s.0 != s.1 && s.0 < 34 && s.1 < 34));
    let thresholds = vec![0i128; N];
    let best = simulated_annealing(&corpus, &cfg, &perturbations, &thresholds);
    assert!(best.penalize(&corpus) < cfg.layout.penalize(&corpus));
    // Only improvements are taken: replaying the run gives the same best.
    let mut current = cfg.layout;
    let mut best_seen = current;
    for p in &perturbations {
        let mut cand = current;
        cand.apply_swap_list(p);
        assert!(best_seen.penalize(&corpus) <= current.penalize(&corpus));
        if cand.penalize(&corpus) <= current.penalize(&corpus) {
            if cand.penalize(&corpus) < best_seen.penalize(&corpus) {
                best_seen = cand;
            }
            current = cand;
        }
    }
    assert_eq!(best, best_seen);
}

#[test]
fn repeated_runs_keep_the_best() {
    let corpus = Corpus::from_text(TEXT, &rsthd_layout());
    let cfg = config(1, 2);
    let mut rng = StdRng::from_seed(&[4usize, 5][..]);
    let perturbations = vec![
        draw_perturbations(&mut rng, 1),
        draw_perturbations(&mut rng, 1),
    ];
    let thresholds = vec![vec![0i128; N], vec![10i128; N]];
    let best = run(&corpus, &cfg, &perturbations, &thresholds);
    let first = simulated_annealing(&corpus, &cfg, &perturbations[0], &thresholds[0]);
    let second = simulated_annealing(&corpus, &cfg, &perturbations[1], &thresholds[1]);
    assert!(best == first || best == second);
    assert!(best.penalize(&corpus) <= first.penalize(&corpus));
    assert!(best.penalize(&corpus) <= second.penalize(&corpus));
    assert!(best.penalize(&corpus) < cfg.layout.penalize(&corpus));
    let none = run(&corpus, &config(1, 0), &vec![], &vec![]);
    assert_eq!(none, qwerty_layout());
}

#[test]
fn neighbourhood_sizes() {
    let one = LayoutPermutations::from_config(&config(1, 1));
    assert_eq!(one.swaps.len(), 1 + 34 * 33 / 2);
    assert_eq!(one.iter().len(), 562);
    let zero = LayoutPermutations::from_config(&config(0, 1));
    assert_eq!(zero.iter(), vec![qwerty_layout()]);
}

#[test]
fn best_of_picks_the_lowest_score() {
    let corpus = Corpus::from_text(TEXT, &rsthd_layout());
    let layouts = vec![qwerty_layout(), rsthd_layout(), qwerty_layout()];
    let b = best_of(&corpus, &layouts);
    let scores: Vec<i128> = layouts.iter().map(|l| l.penalize(&corpus)).collect();
    assert!(scores.iter().all(|s| scores[b] <= *s));
}

#[test]
fn minimum_index_is_the_first_smallest() {
    assert_eq!(index_of_min(&vec![5, 3, 9, 3]), 1);
    assert_eq!(index_of_min(&vec![7]), 0);
}

#[test]
fn refinement_descends_then_stops_at_a_local_optimum() {
    let corpus = Corpus::from_text(TEXT, &rsthd_layout());
    let cfg = config(1, 1);
    let path = refine(&corpus, &cfg);
    assert_eq!(path[0], qwerty_layout());
    assert!(path.len() > 1);
    for w in path.windows(2) {
        assert!(w[1].penalize(&corpus) < w[0].penalize(&corpus));
    }
    let last = *path.last().unwrap();
    let mut again = cfg.clone();
    again.layout = last;
    let path2 = refine(&corpus, &again);
    assert_eq!(path2, vec![last]);
}

#[test]
fn refinement_with_no_swaps_keeps_the_layout() {
    let corpus = Corpus::from_text(TEXT, &rsthd_layout());
    assert_eq!(refine(&corpus, &config(0, 1)), vec![qwerty_layout()]);
}
