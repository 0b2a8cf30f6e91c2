use makemore::generate::{generate, Generator};
use makemore::sampler::{draw_sample, pick_index, total_weight, SampleError};
use rand::rngs::StdRng;
use rand::SeedableRng;

fn one_hot(i: usize) -> Vec<u32> {
    let mut w = vec![0u32; 27];
    w[i] = 1;
    w
}

#[test]
fn pick_follows_cumulative_weights() {
    let mut w = vec![0u32; 27];
    w[0] = 2;
    w[3] = 5;
    w[26] = 1;
    assert_eq!(total_weight(&w), Ok(8));
    assert_eq!(pick_index(&w, 0), Ok(0));
    assert_eq!(pick_index(&w, 1), Ok(0));
    assert_eq!(pick_index(&w, 2), Ok(3));
    assert_eq!(pick_index(&w, 6), Ok(3));
    assert_eq!(pick_index(&w, 7), Ok(26));
    // past the total: the defined fallback
    assert_eq!(pick_index(&w, 8), Ok(0));
}

#[test]
fn invalid_distributions_are_rejected() {
    let mut rng = StdRng::seed_from_u64(1);
    assert_eq!(draw_sample(&vec![0u32; 27], &mut rng), Err(SampleError::ZeroTotal));
    assert_eq!(draw_sample(&vec![1u32; 26], &mut rng), Err(SampleError::WrongLength));
    assert_eq!(pick_index(&vec![1u32; 28], 0), Err(SampleError::WrongLength));
}

#[test]
fn draws_stay_in_the_alphabet_and_on_positive_weights() {
    let mut rng = StdRng::seed_from_u64(7);
    let w: Vec<u32> = (0..27).map(|i| if i % 2 == 0 { i + 1 } else { 0 }).collect();
    let big = vec![u32::MAX; 27];
    for _ in 0..500 {
        let i = draw_sample(&w, &mut rng).unwrap();
        assert!(i < 27);
        assert!(w[i] > 0);
        assert!(draw_sample(&big, &mut rng).unwrap() < 27);
    }
}

#[test]
fn boundary_only_distribution_draws_boundary() {
    let mut rng = StdRng::seed_from_u64(3);
    let mut w = vec![0u32; 27];
    w[0] = 1000;
    for _ in 0..100 {
        assert_eq!(draw_sample(&w, &mut rng), Ok(0));
    }
}

#[test]
fn seeded_draws_are_reproducible() {
    let dists: Vec<Vec<u32>> = (0..20u32)
        .map(|k| (0..27u32).map(|i| (i * 7 + k * 3) % 11).collect())
        .collect();
    let run = |seed: u64| -> Vec<usize> {
        let mut rng = StdRng::seed_from_u64(seed);
        dists.iter().map(|d| draw_sample(d, &mut rng).unwrap()).collect()
    };
    assert_eq!(run(42), run(42));
    assert_eq!(run(9), run(9));
}

#[test]
fn boundary_model_generates_empty_name() {
    let mut rng = StdRng::seed_from_u64(5);
    let model = |_ctx: &Vec<u32>| one_hot(0);
    assert_eq!(generate(&model, &mut rng, 3, 50), Ok(String::new()));
    assert_eq!(generate(&model, &mut rng, 1, 50), Ok(String::new()));
}

#[test]
fn step_bound_stops_endless_model() {
    let mut rng = StdRng::seed_from_u64(5);
    let model = |_ctx: &Vec<u32>| one_hot(2);
    assert_eq!(generate(&model, &mut rng, 3, 5), Ok("bbbbb".to_string()));
    assert_eq!(generate(&model, &mut rng, 3, 0), Ok(String::new()));
}

#[test]
fn generation_feeds_the_window_back() {
    let mut rng = StdRng::seed_from_u64(11);
    // predicts the letter after the newest code of the window, and stops after 'd'
    let model = |ctx: &Vec<u32>| {
        let last = *ctx.last().unwrap() as usize;
        if last == 4 { one_hot(0) } else { one_hot(last + 1) }
    };
    assert_eq!(generate(&model, &mut rng, 3, 50), Ok("abcd".to_string()));
}

#[test]
fn invalid_prediction_aborts_generation() {
    let mut rng = StdRng::seed_from_u64(11);
    let model = |_ctx: &Vec<u32>| vec![0u32; 27];
    assert_eq!(generate(&model, &mut rng, 3, 50), Err(SampleError::ZeroTotal));
}

#[test]
fn generator_state_machine_steps() {
    let mut g = Generator::new(3, 2);
    assert_eq!(g.context, vec![0, 0, 0]);
    assert!(!g.finished);
    g.advance(5);
    assert_eq!(g.name, vec!['e']);
    assert_eq!(g.context, vec![0, 0, 5]);
    assert!(!g.finished);
    g.advance(13);
    assert_eq!(g.context, vec![0, 5, 13]);
    assert!(g.finished);
    let mut h = Generator::new(1, 10);
    h.advance(0);
    assert!(h.finished);
    assert!(h.name.is_empty());
    assert!(Generator::new(3, 0).finished);
}
