use reinforcement::activation::Act;
use reinforcement::fx::SCALE;
use reinforcement::layer::Layer;
use reinforcement::network::Network;
use reinforcement::reinforce::{ConfigError, MetaParameters, Reinforcement};
use reinforcement::rng::rng_from_seed;
use reinforcement::training::Gradient;

const S: i64 = SCALE;

fn policy_net() -> Network {
    Network::single(Layer::new(2, 1, Act::Sigmoid))
}

fn score_net() -> Network {
    Network::single(Layer::new(2, 1, Act::Id))
}

fn leaves(n: &Network) -> Vec<&Layer> {
    match n {
        Network::Single(l) => vec![l],
        Network::Chain(h, t) => {
            let mut v = leaves(h);
            v.extend(leaves(t));
            v
        },
    }
}

#[test]
fn construction_checks_the_widths() {
    let r = Reinforcement::new(policy_net(), score_net());
    assert!(r.is_ok());
    // value network reading a different input width is rejected
    let bad_in = Network::single(Layer::new(3, 1, Act::Id));
    let r = Reinforcement::new(policy_net(), bad_in);
    assert_eq!(r.err(), Some(ConfigError::ActionInputWidth));
    // value network with a non-scalar output is rejected
    let bad_out = Network::single(Layer::new(2, 2, Act::Id));
    let r = Reinforcement::new(policy_net(), bad_out);
    assert_eq!(r.err(), Some(ConfigError::ScoreOutputWidth));
}

#[test]
fn sampled_actions_stay_in_the_declared_range() {
    let mut rng = rng_from_seed(42);
    let mut r = Reinforcement::new(policy_net(), score_net()).unwrap();
    r.randomize(&mut rng);
    let sigma = S;
    for k in 0..10000u64 {
        let x0 = ((k as i64) % 17 - 8) * S / 4;
        let x1 = ((k as i64) % 23 - 11) * S / 4;
        let action = r.normal_forward(&vec![x0, x1], sigma, &mut rng);
        assert_eq!(action.len(), 1);
        assert!(
            (0..=S).contains(&action[0]),
            "sample {} out of [0, 1] at draw {k}",
            action[0]
        );
    }
}

#[test]
fn deterministic_forward_matches_the_policy() {
    let mut rng = rng_from_seed(9);
    let mut r = Reinforcement::new(policy_net(), score_net()).unwrap();
    r.randomize(&mut rng);
    let out1 = r.forward(&vec![S / 2, -S / 2]);
    let out2 = r.forward(&vec![S / 2, -S / 2]);
    assert_eq!(out1, out2);
    assert!((0..=S).contains(&out1[0]));
}

fn meta() -> MetaParameters {
    MetaParameters { alpha: S / 10, alpha_score: S / 4, relaxation: S / 2, sigma: S }
}

#[test]
fn reinforce_leaves_a_zero_gradient_and_moves_the_weights() {
    let mut rng = rng_from_seed(7);
    let mut r = Reinforcement::new(policy_net(), score_net()).unwrap();
    r.randomize(&mut rng);
    let w_before = leaves(r.network_ref())[0].weight_at(0, 0);
    let out_before = r.forward(&vec![S, S]);

    // a fixed deterministic environment: constant unit reward, one tick
    let mut ctxs: Vec<i64> = vec![0, 10, 20];
    r.reinforce(
        meta(),
        &mut ctxs,
        |c: &i64| vec![*c, *c],
        5,
        |c: &i64, _a: &Vec<i64>| (*c + 1, S, true),
        &mut rng,
    );

    // the batch invariant: the master gradient buffer is exactly zero
    assert_eq!(r.network_ref().norm2_gradient(), 0);
    assert_eq!(r.score_network_ref().norm2_gradient(), 0);
    assert_eq!(r.relaxation_value(), S / 2);
    // the contexts advanced one deterministic step each
    assert_eq!(ctxs, vec![1, 11, 21]);
    // and the weights took a step
    let w_after = leaves(r.network_ref())[0].weight_at(0, 0);
    let out_after = r.forward(&vec![S, S]);
    assert!(
        w_after != w_before || out_after != out_before,
        "reinforcement left the policy untouched"
    );
}

#[test]
fn reinforce_with_no_contexts_only_resets() {
    let mut rng = rng_from_seed(8);
    let mut r = Reinforcement::new(policy_net(), score_net()).unwrap();
    r.randomize(&mut rng);
    let w_before = leaves(r.network_ref())[0].weight_at(0, 0);
    let mut ctxs: Vec<i64> = vec![];
    r.reinforce(
        meta(),
        &mut ctxs,
        |c: &i64| vec![*c, *c],
        5,
        |c: &i64, _a: &Vec<i64>| (*c, S, true),
        &mut rng,
    );
    assert_eq!(leaves(r.network_ref())[0].weight_at(0, 0), w_before);
    assert_eq!(r.network_ref().norm2_gradient(), 0);
}

#[test]
fn reinforce_runs_multi_step_episodes() {
    let mut rng = rng_from_seed(13);
    let policy = Network::chain(
        Network::single(Layer::new(2, 4, Act::ReLu)),
        Network::single(Layer::new(4, 1, Act::Sigmoid)),
    );
    let mut r = Reinforcement::new(policy, score_net()).unwrap();
    r.randomize(&mut rng);
    // episodes end when the counter reaches three ticks or the cap of 10
    let mut ctxs: Vec<i64> = vec![0, 0];
    r.reinforce(
        meta(),
        &mut ctxs,
        |c: &i64| vec![*c * S / 8, S / 2],
        10,
        |c: &i64, a: &Vec<i64>| (*c + 1, a[0] - S / 2, *c + 1 >= 3),
        &mut rng,
    );
    assert_eq!(ctxs, vec![3, 3]);
    assert_eq!(r.network_ref().norm2_gradient(), 0);
    assert_eq!(r.score_network_ref().norm2_gradient(), 0);
}

#[test]
fn randomize_draws_fresh_weights() {
    let mut rng = rng_from_seed(21);
    let mut r = Reinforcement::new(policy_net(), score_net()).unwrap();
    r.randomize(&mut rng);
    let w1 = leaves(r.network_ref())[0].weight_at(0, 0);
    let b1 = leaves(r.network_ref())[0].bias_at(0);
    r.randomize(&mut rng);
    let w2 = leaves(r.network_ref())[0].weight_at(0, 0);
    let b2 = leaves(r.network_ref())[0].bias_at(0);
    assert!(w1 != w2 || b1 != b2, "two draws gave identical parameters");
    assert!(w1.abs() <= S && w2.abs() <= S);
}

#[test]
fn reinforce_with_zero_ticks_leaves_the_weights() {
    let mut rng = rng_from_seed(31);
    let mut r = Reinforcement::new(policy_net(), score_net()).unwrap();
    r.randomize(&mut rng);
    let w_before = leaves(r.network_ref())[0].weight_at(0, 0);
    let mut ctxs: Vec<i64> = vec![1, 2];
    r.reinforce(
        meta(),
        &mut ctxs,
        |c: &i64| vec![*c, *c],
        0,
        |c: &i64, _a: &Vec<i64>| (*c + 1, S, false),
        &mut rng,
    );
    // no episode steps ran: the summed gradient is zero, so the step moved
    // nothing, and the master gradient is reset
    assert_eq!(leaves(r.network_ref())[0].weight_at(0, 0), w_before);
    assert_eq!(ctxs, vec![1, 2]);
    assert_eq!(r.network_ref().norm2_gradient(), 0);
}
