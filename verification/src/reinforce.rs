//! The policy-gradient reinforcement engine.
//!
//! The engine wraps a policy network and an auxiliary value network that
//! predicts the reward from the same inputs.  Exploration happens in
//! [`Reinforcement::normal_forward`]: a bell-shaped perturbation (a sum of
//! uniform draws) is added to the policy's deterministic output, clipped to
//! the activation's declared range and to ten standard deviations, and the
//! sampling noise is fed back as the initial backpropagation delta.

use vstd::prelude::*;
use crate::activation::{spec_hi, spec_lo, Act};
use crate::fx::{fx_add, fx_divn, fx_mul, fx_sub, fxs_add, fxs_divn, fxs_mul, fxs_sub, SCALE};
use crate::model::{
    add_models, apply_models, chain_wf, fwd_models, fwd_out, grad_is_zero, layer_out, normalized,
    randomized_from, rescale_models, reset_models, same_shape, upd_models, LayerModel, Shape,
};
use crate::network::{delta_of, Network};
use crate::rng::next_symmetric;
use crate::training::{BackProp, Eval, Gradient, Weights};

verus! {

/// Ten, in raw units: sampling clips at ten standard deviations.
pub const TEN_FX: i64 = 0xa_0000_0000;

/// The per-batch configuration of a reinforcement step.
#[derive(Clone, Copy, PartialEq, Eq, Structural, Debug)]
pub struct MetaParameters {
    /// Learning rate of the policy network.
    pub alpha: i64,
    /// Learning rate of the value (score) network.
    pub alpha_score: i64,
    /// Gradient blending rate, in `(0, 1]`.
    pub relaxation: i64,
    /// Exploration standard deviation, positive.
    pub sigma: i64,
}

/// A construction-time configuration violation.
#[derive(Clone, Copy, PartialEq, Eq, Structural, Debug)]
pub enum ConfigError {
    /// The value network does not read the same inputs as the policy.
    ActionInputWidth,
    /// The value network does not produce a single scalar.
    ScoreOutputWidth,
}

/// A policy network paired with a learned reward baseline.
pub struct Reinforcement {
    network: Network,
    score_network: Network,
    relaxation: i64,
}

/// A centered bell-shaped perturbation, clipped to the window around the
/// mean that the declared range and ten standard deviations allow.
fn sample_clipped(
    rng: &mut rand::rngs::StdRng,
    mean: i64,
    sigma: i64,
    lo: Option<i64>,
    hi: Option<i64>,
) -> (s: i64)
    requires
        0 < sigma <= 0x4000_0000_0000_0000,
        lo matches Some(l) ==> -SCALE <= l <= mean,
        hi matches Some(h) ==> mean <= h && -SCALE <= h <= SCALE,
    ensures
        lo matches Some(l) ==> l <= s,
        hi matches Some(h) ==> s <= h,
        fxs_sub(mean, fxs_mul(TEN_FX, sigma)) <= s <= fxs_add(mean, fxs_mul(TEN_FX, sigma)),
{
    let nr = fx_mul(TEN_FX, sigma);
    proof {
        crate::fx::lemma_mul_nonneg(TEN_FX, sigma);
    }
    let mut low = fx_sub(mean, nr);
    let mut up = fx_add(mean, nr);
    if let Some(l) = lo {
        if l > low {
            low = l;
        }
    }
    if let Some(h) = hi {
        if h < up {
            up = h;
        }
    }
    proof {
        assert(low <= up);
    }
    let u1 = next_symmetric(rng, sigma);
    let u2 = next_symmetric(rng, sigma);
    let u3 = next_symmetric(rng, sigma);
    let u4 = next_symmetric(rng, sigma);
    let noise = fx_divn(fx_add(fx_add(u1, u2), fx_add(u3, u4)), 2);
    let raw = fx_add(mean, noise);
    crate::fx::fx_clamp(raw, low, up)
}

impl Reinforcement {
    /// The policy network's chain of layers.
    pub closed spec fn net_model(&self) -> Seq<LayerModel> {
        self.network.model()
    }

    /// The value network's chain of layers.
    pub closed spec fn score_model(&self) -> Seq<LayerModel> {
        self.score_network.model()
    }

    pub closed spec fn net_shape(&self) -> Shape {
        self.network.shape()
    }

    pub closed spec fn score_shape(&self) -> Shape {
        self.score_network.shape()
    }

    /// The gradient blending rate of the last batch.
    pub closed spec fn relaxation(&self) -> i64 {
        self.relaxation
    }

    /// Well-formedness: both networks are well formed, read the same
    /// inputs, and the value network produces one scalar.
    pub open spec fn rwf(&self) -> bool {
        &&& chain_wf(self.net_model())
        &&& chain_wf(self.score_model())
        &&& self.score_model()[0].ni == self.net_model()[0].ni
        &&& self.score_model().last().no == 1
    }

    /// Pair a policy with a value network.  The value network must read the
    /// policy's inputs and produce a single scalar; a mismatch is a
    /// configuration violation reported at construction time.
    pub fn new(network: Network, score_network: Network) -> (r: Result<Reinforcement, ConfigError>)
        requires
            chain_wf(network.model()),
            chain_wf(score_network.model()),
        ensures
            score_network.model()[0].ni != network.model()[0].ni ==> r == Err::<
                Reinforcement,
                ConfigError,
            >(ConfigError::ActionInputWidth),
            score_network.model()[0].ni == network.model()[0].ni
                && score_network.model().last().no != 1 ==> r == Err::<Reinforcement, ConfigError>(
                ConfigError::ScoreOutputWidth,
            ),
            r matches Ok(v) ==> {
                &&& v.rwf()
                &&& v.net_model() == network.model()
                &&& v.score_model() == score_network.model()
                &&& v.net_shape() == network.shape()
                &&& v.score_shape() == score_network.shape()
                &&& v.relaxation() == 0
            },
            r is Ok <==> (score_network.model()[0].ni == network.model()[0].ni
                && score_network.model().last().no == 1),
    {
        if score_network.input_len() != network.input_len() {
            Err(ConfigError::ActionInputWidth)
        } else if score_network.output_len() != 1 {
            Err(ConfigError::ScoreOutputWidth)
        } else {
            Ok(Reinforcement { network, score_network, relaxation: 0 })
        }
    }

    /// Re-draw both networks' weights.
    pub fn randomize(&mut self, rng: &mut rand::rngs::StdRng)
        requires
            old(self).rwf(),
        ensures
            final(self).rwf(),
            randomized_from(final(self).net_model(), old(self).net_model()),
            randomized_from(final(self).score_model(), old(self).score_model()),
            final(self).net_shape() == old(self).net_shape(),
            final(self).score_shape() == old(self).score_shape(),
            final(self).relaxation() == old(self).relaxation(),
    {
        self.network.randomize(rng);
        self.score_network.randomize(rng);
        proof {
            assert(self.score_model()[0].ni == old(self).score_model()[0].ni);
            assert(self.net_model()[0].ni == old(self).net_model()[0].ni);
            assert(self.score_model().len() == old(self).score_model().len());
            assert(self.score_model().last().no == old(self).score_model().last().no);
        }
    }

    /// The policy's deterministic output.
    pub fn forward(&mut self, action_in: &Vec<i64>) -> (out: Vec<i64>)
        requires
            old(self).rwf(),
            action_in@.len() == old(self).net_model()[0].ni,
        ensures
            final(self).rwf(),
            final(self).net_model() == fwd_models(old(self).net_model(), action_in@),
            out@ == fwd_out(old(self).net_model(), action_in@),
            out@.len() == old(self).net_model().last().no,
            final(self).score_model() == old(self).score_model(),
            final(self).net_shape() == old(self).net_shape(),
            final(self).score_shape() == old(self).score_shape(),
            final(self).relaxation() == old(self).relaxation(),
    {
        let out = self.network.forward(action_in);
        proof {
            assert(self.net_model()[0].ni == old(self).net_model()[0].ni);
            assert(self.net_model().last().no == old(self).net_model().last().no);
        }
        out
    }
}

/// One stochastic forward pass through a network: sample a perturbed action
/// around the deterministic output, clipped to the declared range, and feed
/// the sampling noise back as the backpropagation delta (full overwrite).
fn stochastic_step(
    net: &mut Network,
    input: &Vec<i64>,
    sigma: i64,
    rng: &mut rand::rngs::StdRng,
) -> (action: Vec<i64>)
    requires
        chain_wf(old(net).model()),
        input@.len() == old(net).model()[0].ni,
        0 < sigma <= 0x4000_0000_0000_0000,
    ensures
        action@.len() == old(net).model().last().no,
        final(net).model() == upd_models(
            fwd_models(old(net).model(), input@),
            SCALE,
            delta_of(action@, fwd_out(old(net).model(), input@)),
        ),
        chain_wf(final(net).model()),
        same_shape(final(net).model(), old(net).model()),
        final(net).shape() == old(net).shape(),
        forall|k: int|
            0 <= k < action@.len() ==> (spec_lo(old(net).model().last().act) matches Some(l) ==> l
                <= #[trigger] action@[k]),
        forall|k: int|
            0 <= k < action@.len() ==> (spec_hi(old(net).model().last().act) matches Some(h)
                ==> #[trigger] action@[k] <= h),
        forall|k: int|
            0 <= k < action@.len() ==> fxs_sub(
                fwd_out(old(net).model(), input@)[k],
                fxs_mul(TEN_FX, sigma),
            ) <= #[trigger] action@[k] <= fxs_add(
                fwd_out(old(net).model(), input@)[k],
                fxs_mul(TEN_FX, sigma),
            ),
{
    let ghost m0 = net.model();
    let ghost last_act = m0.last().act;
    let probabilities = net.forward(input);
    let ranges = net.output_ranges();
    proof {
        crate::model::lemma_fwd_out_is_last_layer(m0, input@);
        let y = choose|y: Seq<i64>| #[trigger] fwd_out(m0, input@) == layer_out(m0.last(), y);
        assert forall|k: int| 0 <= k < probabilities@.len() implies {
            &&& (spec_lo(last_act) matches Some(l) ==> l <= #[trigger] probabilities@[k])
            &&& (spec_hi(last_act) matches Some(h) ==> probabilities@[k] <= h)
        } by {
            assert(probabilities@[k] == layer_out(m0.last(), y)[k]);
            assert(probabilities@[k] == crate::activation::spec_apply(
                last_act,
                crate::model::layer_pre(m0.last(), y, k),
            ));
            crate::activation::lemma_apply_in_range(
                last_act,
                crate::model::layer_pre(m0.last(), y, k),
            );
        }
        assert(spec_lo(last_act) matches Some(l) ==> -SCALE <= l);
        assert(spec_hi(last_act) matches Some(h) ==> h <= SCALE);
    }
    let n_out = probabilities.len();
    let mut action: Vec<i64> = Vec::new();
    let mut k: usize = 0;
    while k < n_out
        invariant
            k <= n_out,
            n_out == probabilities@.len(),
            ranges@.len() == n_out,
            0 < sigma <= 0x4000_0000_0000_0000,
            forall|q: int|
                0 <= q < n_out ==> (#[trigger] ranges@[q]).0 == spec_lo(last_act) && ranges@[q].1
                    == spec_hi(last_act),
            forall|q: int|
                0 <= q < n_out ==> (spec_lo(last_act) matches Some(l) ==> l
                    <= #[trigger] probabilities@[q]),
            forall|q: int|
                0 <= q < n_out ==> (spec_hi(last_act) matches Some(h) ==> #[trigger] probabilities@[q]
                    <= h),
            spec_lo(last_act) matches Some(l) ==> -SCALE <= l,
            spec_hi(last_act) matches Some(h) ==> h <= SCALE,
            action@.len() == k,
            forall|q: int|
                0 <= q < k ==> (spec_lo(last_act) matches Some(l) ==> l <= #[trigger] action@[q]),
            forall|q: int|
                0 <= q < k ==> (spec_hi(last_act) matches Some(h) ==> #[trigger] action@[q] <= h),
            forall|q: int|
                0 <= q < k ==> fxs_sub(probabilities@[q], fxs_mul(TEN_FX, sigma))
                    <= #[trigger] action@[q] <= fxs_add(probabilities@[q], fxs_mul(TEN_FX, sigma)),
        decreases n_out - k,
    {
        let r = ranges[k];
        let a = sample_clipped(rng, probabilities[k], sigma, r.0, r.1);
        action.push(a);
        k += 1;
    }
    let mut delta: Vec<i64> = Vec::new();
    let ghost dsp = delta_of(action@, probabilities@);
    let mut k2: usize = 0;
    while k2 < n_out
        invariant
            k2 <= n_out,
            n_out == probabilities@.len(),
            action@.len() == n_out,
            delta@.len() == k2,
            dsp == delta_of(action@, probabilities@),
            forall|q: int| 0 <= q < k2 ==> (#[trigger] delta@[q]) == dsp[q],
        decreases n_out - k2,
    {
        delta.push(fx_sub(action[k2], probabilities[k2]));
        k2 += 1;
    }
    proof {
        assert(delta@ =~= dsp);
        assert(net.model().last().no == m0.last().no);
    }
    let _dout = net.update_gradient(SCALE, &delta);
    proof {
        crate::model::lemma_same_shape_trans(m0, fwd_models(m0, input@), net.model());
    }
    action
}

impl Reinforcement {
    /// Sample a stochastic action from the policy: the deterministic output
    /// perturbed by bell-shaped noise, clipped to the declared output range
    /// and to ten standard deviations; the noise is fed back as the policy
    /// gradient delta.  Every sampled unit respects the declared range and
    /// lies within ten standard deviations of the deterministic output.
    pub fn normal_forward(
        &mut self,
        action_in: &Vec<i64>,
        sigma: i64,
        rng: &mut rand::rngs::StdRng,
    ) -> (action: Vec<i64>)
        requires
            old(self).rwf(),
            action_in@.len() == old(self).net_model()[0].ni,
            0 < sigma <= 0x4000_0000_0000_0000,
        ensures
            final(self).rwf(),
            action@.len() == old(self).net_model().last().no,
            final(self).net_model() == upd_models(
                fwd_models(old(self).net_model(), action_in@),
                SCALE,
                delta_of(action@, fwd_out(old(self).net_model(), action_in@)),
            ),
            same_shape(final(self).net_model(), old(self).net_model()),
            final(self).score_model() == old(self).score_model(),
            final(self).net_shape() == old(self).net_shape(),
            final(self).score_shape() == old(self).score_shape(),
            final(self).relaxation() == old(self).relaxation(),
            forall|k: int|
                0 <= k < action@.len() ==> (spec_lo(old(self).net_model().last().act)
                    matches Some(l) ==> l <= #[trigger] action@[k]),
            forall|k: int|
                0 <= k < action@.len() ==> (spec_hi(old(self).net_model().last().act)
                    matches Some(h) ==> #[trigger] action@[k] <= h),
            forall|k: int|
                0 <= k < action@.len() ==> fxs_sub(
                    fwd_out(old(self).net_model(), action_in@)[k],
                    fxs_mul(TEN_FX, sigma),
                ) <= #[trigger] action@[k] <= fxs_add(
                    fwd_out(old(self).net_model(), action_in@)[k],
                    fxs_mul(TEN_FX, sigma),
                ),
    {
        let action = stochastic_step(&mut self.network, action_in, sigma, rng);
        proof {
            assert(self.net_model()[0].ni == old(self).net_model()[0].ni);
        }
        action
    }
}

/// The master gradient after the per-episode contributions are added, in
/// order of completion.
pub open spec fn sum_contribs(base: Seq<LayerModel>, cs: Seq<Seq<LayerModel>>) -> Seq<LayerModel>
    decreases cs.len(),
{
    if cs.len() == 0 {
        base
    } else {
        add_models(sum_contribs(base, cs.drop_last()), cs.last())
    }
}

/// One tick of an episode, as the engine records it: the context the tick
/// started from, the projected network input, the sampled action, and the
/// successor context, step-local reward and termination flag the environment
/// returned.
pub ghost struct EpisodeStep<C> {
    pub ctx: C,
    pub input: Seq<i64>,
    pub action: Seq<i64>,
    pub ctx_next: C,
    pub reward: i64,
    pub done: bool,
}

/// The step's input came from the projection closure on its context, and its
/// transition from the physics closure on that context and action.
pub open spec fn step_obs<C, FI: Fn(&C) -> Vec<i64>, FP: Fn(&C, &Vec<i64>) -> (C, i64, bool)>(
    fi: FI,
    fp: FP,
    s: EpisodeStep<C>,
) -> bool {
    &&& exists|v: Vec<i64>| v@ == s.input && #[trigger] call_ensures(fi, (&s.ctx,), v)
    &&& exists|a: Vec<i64>|
        a@ == s.action && #[trigger] call_ensures(fp, (&s.ctx, &a), (s.ctx_next, s.reward, s.done))
}

/// The action was drawn around the policy's deterministic output on this
/// input: it has the output width, respects the declared range of the final
/// activation, and lies within ten standard deviations of the output.
pub open spec fn sampled_from(
    m0r: Seq<LayerModel>,
    sigma: i64,
    input: Seq<i64>,
    action: Seq<i64>,
) -> bool {
    &&& action.len() == m0r.last().no
    &&& forall|k: int|
        #![trigger action[k]]
        0 <= k < action.len() ==> {
            &&& (spec_lo(m0r.last().act) matches Some(l) ==> l <= action[k])
            &&& (spec_hi(m0r.last().act) matches Some(h) ==> action[k] <= h)
            &&& fxs_sub(fwd_out(m0r, input)[k], fxs_mul(TEN_FX, sigma)) <= action[k] <= fxs_add(
                fwd_out(m0r, input)[k],
                fxs_mul(TEN_FX, sigma),
            )
        }
}

/// Every action of the episode was sampled around the policy's
/// deterministic output on its step's input.
pub open spec fn actions_sampled<C>(
    m0r: Seq<LayerModel>,
    sigma: i64,
    steps: Seq<EpisodeStep<C>>,
) -> bool {
    forall|t: int|
        #![trigger steps[t]]
        0 <= t < steps.len() ==> sampled_from(m0r, sigma, steps[t].input, steps[t].action)
}

/// The steps are one well-formed episode from `start`: contexts chain
/// through the physics closure, inputs come from the projection closure,
/// the episode runs at most `max_iter` ticks (at least one when `max_iter`
/// allows any), only its last tick may be terminal, and it ends early only
/// because that tick was terminal.
pub open spec fn valid_episode<C, FI: Fn(&C) -> Vec<i64>, FP: Fn(&C, &Vec<i64>) -> (C, i64, bool)>(
    fi: FI,
    fp: FP,
    start: C,
    steps: Seq<EpisodeStep<C>>,
    max_iter: nat,
) -> bool {
    &&& steps.len() <= max_iter
    &&& (max_iter > 0 ==> steps.len() >= 1)
    &&& (forall|t: int|
        #![trigger steps[t]]
        0 <= t < steps.len() ==> {
            &&& steps[t].ctx == (if t == 0 {
                start
            } else {
                steps[t - 1].ctx_next
            })
            &&& step_obs(fi, fp, steps[t])
            &&& (t < steps.len() - 1 ==> !steps[t].done)
        })
    &&& (0 < steps.len() && steps.len() < max_iter ==> steps.last().done)
}

/// The policy gradient one stochastic tick accumulates, starting from the
/// master policy with its gradient buffer cleared: forward on the input,
/// then one full-overwrite backpropagation of the sampling noise
/// `action - output`.
pub open spec fn step_grad(
    m0r: Seq<LayerModel>,
    input: Seq<i64>,
    action: Seq<i64>,
) -> Seq<LayerModel> {
    upd_models(fwd_models(m0r, input), SCALE, delta_of(action, fwd_out(m0r, input)))
}

/// The value-network gradient one backward tick accumulates, starting from
/// the value network with its gradient buffer cleared: forward on the
/// tick's input, then one full overwrite with the advantage as the delta.
pub open spec fn score_step_grad(
    s0r: Seq<LayerModel>,
    input: Seq<i64>,
    advantage: i64,
) -> Seq<LayerModel> {
    upd_models(fwd_models(s0r, input), SCALE, seq![advantage])
}

/// The discounted return credited to the step `k` places from the episode's
/// end: the backward fold `disc' = relaxation * disc + reward` over the step
/// history (full-trajectory credit assignment).
pub open spec fn fold_disc<C>(steps: Seq<EpisodeStep<C>>, relax: i64, k: nat) -> i64
    decreases k,
{
    if k == 0 {
        0
    } else {
        fxs_add(
            fxs_mul(relax, fold_disc(steps, relax, (k - 1) as nat)),
            steps[steps.len() - k].reward,
        )
    }
}

/// The advantage of the step `k` places from the end: its discounted return
/// minus the value network's prediction on its input.
pub open spec fn fold_advantage<C>(
    s0r: Seq<LayerModel>,
    steps: Seq<EpisodeStep<C>>,
    relax: i64,
    k: nat,
) -> i64 {
    fxs_sub(fold_disc(steps, relax, k), fwd_out(s0r, steps[steps.len() - k].input)[0])
}

/// The episode's accumulated policy gradient after its last `k` steps were
/// folded in, back to front: each step's gradient is rescaled by the
/// logistic squash of its advantage and added onto the cleared buffer.
pub open spec fn fold_net<C>(
    m0r: Seq<LayerModel>,
    s0r: Seq<LayerModel>,
    steps: Seq<EpisodeStep<C>>,
    relax: i64,
    k: nat,
) -> Seq<LayerModel>
    decreases k,
{
    if k == 0 {
        m0r
    } else {
        let t = steps.len() - k;
        add_models(
            fold_net(m0r, s0r, steps, relax, (k - 1) as nat),
            rescale_models(
                step_grad(m0r, steps[t].input, steps[t].action),
                crate::activation::spec_apply(Act::Sigmoid, fold_advantage(s0r, steps, relax, k)),
            ),
        )
    }
}

/// The episode's accumulated value-network gradient after its last `k`
/// steps were folded in: each step pushes the prediction toward the
/// discounted return it observed.
pub open spec fn fold_score<C>(
    s0r: Seq<LayerModel>,
    steps: Seq<EpisodeStep<C>>,
    relax: i64,
    k: nat,
) -> Seq<LayerModel>
    decreases k,
{
    if k == 0 {
        s0r
    } else {
        let t = steps.len() - k;
        add_models(
            fold_score(s0r, steps, relax, (k - 1) as nat),
            score_step_grad(s0r, steps[t].input, fold_advantage(s0r, steps, relax, k)),
        )
    }
}

/// One batch witness: per recorded episode, one policy direction and one
/// value direction.  The quantifier over the three sequences is triggered on
/// this relation.
pub open spec fn batch_witness<C>(
    cs: Seq<Seq<LayerModel>>,
    ss: Seq<Seq<LayerModel>>,
    eps: Seq<Seq<EpisodeStep<C>>>,
) -> bool {
    cs.len() == eps.len() && ss.len() == eps.len()
}

/// One batched reinforcement update of a network whose layers were `m0`:
/// `n` per-episode directions, each the unit-normalization of some
/// accumulated episode gradient, are summed onto the reset master gradient;
/// one ascent step of `alpha / n` is applied; and the gradient buffer is
/// reset, leaving `mf`.
pub open spec fn is_batch_of(
    m0: Seq<LayerModel>,
    mf: Seq<LayerModel>,
    cs: Seq<Seq<LayerModel>>,
    alpha: i64,
    n: i64,
) -> bool {
    &&& cs.len() == n
    &&& forall|i: int| #![trigger cs[i]]
        0 <= i < cs.len() ==> exists|raw: Seq<LayerModel>| cs[i] == normalized(raw)
    &&& mf == reset_models(apply_models(sum_contribs(reset_models(m0), cs), fxs_divn(alpha, n)))
}

impl Reinforcement {
    /// One batched policy-gradient update over independent contexts.
    ///
    /// Each context runs one episode: up to `max_iter` ticks of stochastic
    /// action, physics step (`physics_cost` maps a context and an action to
    /// the successor context, the step reward, and whether the episode is
    /// over; the reward must be step-local), stopping at the first terminal
    /// tick.  The episode's per-step policy gradients are rescaled by a
    /// logistic squash of the discounted future reward minus the value
    /// network's prediction, summed back to front, normalized to unit norm,
    /// and added to the master gradient; the value network learns toward the
    /// realized returns the same way.  One step of `alpha / episodeCount` is
    /// applied and the gradient buffers are reset, so after the call the
    /// master gradient is exactly zero and the weights moved by the
    /// normalized, reward-weighted sum of the recorded episodes' directions
    /// (`fold_net`/`fold_score` of the episode traces).
    #[verifier::rlimit(100)]
    pub fn reinforce<C, FI: Fn(&C) -> Vec<i64>, FP: Fn(&C, &Vec<i64>) -> (C, i64, bool)>(
        &mut self,
        meta_parameters: MetaParameters,
        ctx_list: &mut Vec<C>,
        ctx_to_action_in: FI,
        max_iter: usize,
        physics_cost: FP,
        rng: &mut rand::rngs::StdRng,
    )
        requires
            old(self).rwf(),
            0 < meta_parameters.relaxation <= SCALE,
            0 < meta_parameters.sigma <= 0x4000_0000_0000_0000,
            old(ctx_list)@.len() <= 0x7fff_ffff_ffff_ffff,
            forall|c: &C| call_requires(ctx_to_action_in, (c,)),
            forall|c: &C, y: Vec<i64>|
                call_ensures(ctx_to_action_in, (c,), y) ==> y@.len() == old(
                    self,
                ).net_model()[0].ni,
            forall|c: &C, a: &Vec<i64>| call_requires(physics_cost, (c, a)),
        ensures
            final(self).rwf(),
            final(self).relaxation() == meta_parameters.relaxation,
            final(ctx_list)@.len() == old(ctx_list)@.len(),
            grad_is_zero(final(self).net_model()),
            grad_is_zero(final(self).score_model()),
            same_shape(final(self).net_model(), old(self).net_model()),
            same_shape(final(self).score_model(), old(self).score_model()),
            final(self).net_shape() == old(self).net_shape(),
            final(self).score_shape() == old(self).score_shape(),
            old(ctx_list)@.len() == 0 ==> final(self).net_model() == reset_models(
                old(self).net_model(),
            ) && final(self).score_model() == reset_models(old(self).score_model()),
            exists|cs: Seq<Seq<LayerModel>>, ss: Seq<Seq<LayerModel>>, eps: Seq<
                Seq<EpisodeStep<C>>,
            >|
                {
                    &&& #[trigger] batch_witness(cs, ss, eps)
                    &&& eps.len() == old(ctx_list)@.len()
                    &&& forall|j: int|
                        #![trigger eps[j]]
                        0 <= j < eps.len() ==> {
                            &&& valid_episode(
                                ctx_to_action_in,
                                physics_cost,
                                old(ctx_list)@[j],
                                eps[j],
                                max_iter as nat,
                            )
                            &&& actions_sampled(
                                reset_models(old(self).net_model()),
                                meta_parameters.sigma,
                                eps[j],
                            )
                            &&& final(ctx_list)@[j] == (if eps[j].len() == 0 {
                                old(ctx_list)@[j]
                            } else {
                                eps[j].last().ctx_next
                            })
                            &&& cs[j] == normalized(
                                fold_net(
                                    reset_models(old(self).net_model()),
                                    reset_models(old(self).score_model()),
                                    eps[j],
                                    meta_parameters.relaxation,
                                    eps[j].len(),
                                ),
                            )
                            &&& ss[j] == normalized(
                                fold_score(
                                    reset_models(old(self).score_model()),
                                    eps[j],
                                    meta_parameters.relaxation,
                                    eps[j].len(),
                                ),
                            )
                        }
                    &&& old(ctx_list)@.len() > 0 ==> is_batch_of(
                        old(self).net_model(),
                        final(self).net_model(),
                        cs,
                        meta_parameters.alpha,
                        old(ctx_list)@.len() as i64,
                    ) && is_batch_of(
                        old(self).score_model(),
                        final(self).score_model(),
                        ss,
                        meta_parameters.alpha_score,
                        old(ctx_list)@.len() as i64,
                    )
                },
    {
        let ghost m0 = old(self).net_model();
        let ghost s0 = old(self).score_model();
        let ghost nsh = old(self).net_shape();
        let ghost ssh = old(self).score_shape();
        let ghost n0 = old(ctx_list)@.len();
        let ghost relax = meta_parameters.relaxation;
        self.relaxation = meta_parameters.relaxation;
        self.network.reset_gradient();
        self.score_network.reset_gradient();
        let ghost r0 = reset_models(m0);
        let ghost rs0 = reset_models(s0);
        proof {
            crate::model::lemma_elementwise_props(m0, 0, 0, m0);
            crate::model::lemma_elementwise_props(s0, 0, 0, s0);
        }
        let base_net = self.network.clone();
        let base_score = self.score_network.clone();
        let ghost mut cs: Seq<Seq<LayerModel>> = Seq::empty();
        let ghost mut ss: Seq<Seq<LayerModel>> = Seq::empty();
        let ghost mut eps: Seq<Seq<EpisodeStep<C>>> = Seq::empty();
        let n = ctx_list.len();
        let mut j: usize = 0;
        while j < n
            invariant
                j <= n,
                n == n0,
                ctx_list@.len() == n0,
                chain_wf(m0),
                chain_wf(s0),
                m0[0].ni == s0[0].ni,
                s0.last().no == 1,
                r0 == reset_models(m0),
                rs0 == reset_models(s0),
                chain_wf(r0),
                same_shape(r0, m0),
                chain_wf(rs0),
                same_shape(rs0, s0),
                base_net.model() == r0,
                base_net.shape() == nsh,
                base_score.model() == rs0,
                base_score.shape() == ssh,
                cs.len() == j,
                ss.len() == j,
                eps.len() == j,
                self.network.model() == sum_contribs(r0, cs),
                self.score_network.model() == sum_contribs(rs0, ss),
                chain_wf(self.network.model()),
                chain_wf(self.score_network.model()),
                same_shape(self.network.model(), m0),
                same_shape(self.score_network.model(), s0),
                self.network.shape() == nsh,
                self.score_network.shape() == ssh,
                self.relaxation == meta_parameters.relaxation,
                relax == meta_parameters.relaxation,
                forall|i: int|
                    #![trigger eps[i]]
                    0 <= i < j ==> {
                        &&& valid_episode(
                            ctx_to_action_in,
                            physics_cost,
                            old(ctx_list)@[i],
                            eps[i],
                            max_iter as nat,
                        )
                        &&& actions_sampled(r0, meta_parameters.sigma, eps[i])
                        &&& ctx_list@[i] == (if eps[i].len() == 0 {
                            old(ctx_list)@[i]
                        } else {
                            eps[i].last().ctx_next
                        })
                        &&& cs[i] == normalized(fold_net(r0, rs0, eps[i], relax, eps[i].len()))
                        &&& ss[i] == normalized(fold_score(rs0, eps[i], relax, eps[i].len()))
                    },
                forall|i: int| j <= i < n0 ==> #[trigger] ctx_list@[i] == old(ctx_list)@[i],
                0 < meta_parameters.relaxation <= SCALE,
                0 < meta_parameters.sigma <= 0x4000_0000_0000_0000,
                forall|c: &C| call_requires(ctx_to_action_in, (c,)),
                forall|c: &C, y: Vec<i64>|
                    call_ensures(ctx_to_action_in, (c,), y) ==> y@.len() == m0[0].ni,
                forall|c: &C, a: &Vec<i64>| call_requires(physics_cost, (c, a)),
            decreases n - j,
        {
            let mut evolution: Vec<(i64, Network, Network, Vec<i64>)> = Vec::new();
            let ghost start_j = ctx_list@[j as int];
            let ghost mut ep: Seq<EpisodeStep<C>> = Seq::empty();
            let mut steps: usize = 0;
            let mut done = false;
            proof {
                assert(start_j == old(ctx_list)@[j as int]);
            }
            while steps < max_iter && !done
                invariant
                    ctx_list@.len() == n0,
                    j < n0,
                    chain_wf(m0),
                    chain_wf(s0),
                    m0[0].ni == s0[0].ni,
                    s0.last().no == 1,
                    chain_wf(r0),
                    same_shape(r0, m0),
                    chain_wf(rs0),
                    same_shape(rs0, s0),
                    base_net.model() == r0,
                    base_net.shape() == nsh,
                    base_score.model() == rs0,
                    base_score.shape() == ssh,
                    relax == meta_parameters.relaxation,
                    0 < meta_parameters.sigma <= 0x4000_0000_0000_0000,
                    forall|c: &C| call_requires(ctx_to_action_in, (c,)),
                    forall|c: &C, y: Vec<i64>|
                        call_ensures(ctx_to_action_in, (c,), y) ==> y@.len() == m0[0].ni,
                    forall|c: &C, a: &Vec<i64>| call_requires(physics_cost, (c, a)),
                    steps == ep.len(),
                    steps <= max_iter,
                    evolution@.len() == ep.len(),
                    done == (ep.len() > 0 && ep.last().done),
                    start_j == old(ctx_list)@[j as int],
                    ctx_list@[j as int] == (if ep.len() == 0 {
                        start_j
                    } else {
                        ep.last().ctx_next
                    }),
                    forall|i: int|
                        #![trigger eps[i]]
                        0 <= i < j ==> ctx_list@[i] == (if eps[i].len() == 0 {
                            old(ctx_list)@[i]
                        } else {
                            eps[i].last().ctx_next
                        }),
                    forall|i: int|
                        j < i < n0 ==> #[trigger] ctx_list@[i] == old(ctx_list)@[i],
                    forall|t: int|
                        #![trigger ep[t]]
                        0 <= t < ep.len() ==> {
                            &&& ep[t].ctx == (if t == 0 {
                                start_j
                            } else {
                                ep[t - 1].ctx_next
                            })
                            &&& step_obs(ctx_to_action_in, physics_cost, ep[t])
                            &&& sampled_from(r0, meta_parameters.sigma, ep[t].input, ep[t].action)
                            &&& (t < ep.len() - 1 ==> !ep[t].done)
                            &&& ep[t].input.len() == m0[0].ni
                        },
                    forall|q: int|
                        0 <= q < evolution@.len() ==> {
                            &&& (#[trigger] evolution@[q]).0 == ep[q].reward
                            &&& evolution@[q].1.model() == step_grad(r0, ep[q].input, ep[q].action)
                            &&& chain_wf(evolution@[q].1.model())
                            &&& same_shape(evolution@[q].1.model(), m0)
                            &&& evolution@[q].1.shape() == nsh
                            &&& evolution@[q].2.model() == rs0
                            &&& evolution@[q].2.shape() == ssh
                            &&& evolution@[q].3@ == ep[q].input
                        },
                decreases max_iter - steps, (if done { 0int } else { 1int }),
            {
                let ghost pre_ctx = ctx_list@[j as int];
                let mut step_net = base_net.clone();
                let action_in = ctx_to_action_in(&ctx_list[j]);
                proof {
                    assert(r0[0].ni == m0[0].ni);
                }
                let action = stochastic_step(&mut step_net, &action_in, meta_parameters.sigma, rng);
                let step_res = physics_cost(&ctx_list[j], &action);
                let (c2, step_score, done_flag) = step_res;
                let ghost stepg = EpisodeStep {
                    ctx: pre_ctx,
                    input: action_in@,
                    action: action@,
                    ctx_next: c2,
                    reward: step_score,
                    done: done_flag,
                };
                proof {
                    assert(stepg.ctx == pre_ctx);
                    assert(action_in@ == stepg.input);
                    assert(action@ == stepg.action);
                    assert(call_ensures(ctx_to_action_in, (&stepg.ctx,), action_in));
                    assert(call_ensures(
                        physics_cost,
                        (&stepg.ctx, &action),
                        (stepg.ctx_next, stepg.reward, stepg.done),
                    ));
                    assert(step_obs(ctx_to_action_in, physics_cost, stepg));
                    assert(sampled_from(r0, meta_parameters.sigma, stepg.input, stepg.action));
                    crate::model::lemma_same_shape_trans(m0, r0, step_net.model());
                    ep = ep.push(stepg);
                }
                ctx_list.set(j, c2);
                let score_clone = base_score.clone();
                evolution.push((step_score, step_net, score_clone, action_in));
                steps += 1;
                if done_flag {
                    done = true;
                }
            }
            let mut cum_net = base_net.clone();
            let mut cum_score = base_score.clone();
            let mut discounted: i64 = 0;
            proof {
                assert(valid_episode(
                    ctx_to_action_in,
                    physics_cost,
                    start_j,
                    ep,
                    max_iter as nat,
                ));
                assert(actions_sampled(r0, meta_parameters.sigma, ep));
            }
            while evolution.len() > 0
                invariant
                    chain_wf(m0),
                    chain_wf(s0),
                    m0[0].ni == s0[0].ni,
                    s0.last().no == 1,
                    chain_wf(r0),
                    same_shape(r0, m0),
                    chain_wf(rs0),
                    same_shape(rs0, s0),
                    relax == meta_parameters.relaxation,
                    evolution@.len() <= ep.len(),
                    cum_net.model() == fold_net(
                        r0,
                        rs0,
                        ep,
                        relax,
                        (ep.len() - evolution@.len()) as nat,
                    ),
                    cum_score.model() == fold_score(
                        rs0,
                        ep,
                        relax,
                        (ep.len() - evolution@.len()) as nat,
                    ),
                    discounted == fold_disc(ep, relax, (ep.len() - evolution@.len()) as nat),
                    chain_wf(cum_net.model()),
                    same_shape(cum_net.model(), m0),
                    cum_net.shape() == nsh,
                    chain_wf(cum_score.model()),
                    same_shape(cum_score.model(), s0),
                    cum_score.shape() == ssh,
                    forall|t: int|
                        #![trigger ep[t]]
                        0 <= t < ep.len() ==> ep[t].input.len() == m0[0].ni,
                    forall|q: int|
                        0 <= q < evolution@.len() ==> {
                            &&& (#[trigger] evolution@[q]).0 == ep[q].reward
                            &&& evolution@[q].1.model() == step_grad(r0, ep[q].input, ep[q].action)
                            &&& chain_wf(evolution@[q].1.model())
                            &&& same_shape(evolution@[q].1.model(), m0)
                            &&& evolution@[q].1.shape() == nsh
                            &&& evolution@[q].2.model() == rs0
                            &&& evolution@[q].2.shape() == ssh
                            &&& evolution@[q].3@ == ep[q].input
                        },
                decreases evolution@.len(),
            {
                let ghost k_new = (ep.len() - evolution@.len() + 1) as nat;
                let ghost t = ep.len() - k_new;
                proof {
                    assert(evolution@[evolution@.len() - 1].3@.len() == m0[0].ni);
                    assert(evolution@[evolution@.len() - 1].0 == ep[t].reward);
                    assert(evolution@[evolution@.len() - 1].3@ == ep[t].input);
                }
                let step = evolution.pop().unwrap();
                let (step_score, mut snet, mut sscore, action_in) = step;
                discounted = fx_add(fx_mul(meta_parameters.relaxation, discounted), step_score);
                proof {
                    assert(discounted == fold_disc(ep, relax, k_new));
                    assert(sscore.model()[0].ni == s0[0].ni);
                }
                let pred_out = sscore.forward(&action_in);
                proof {
                    assert(sscore.model().last().no == s0.last().no);
                    assert(pred_out@.len() == 1);
                    assert(pred_out@ == fwd_out(rs0, ep[t].input));
                }
                let prediction = pred_out[0];
                let reward = fx_sub(discounted, prediction);
                let squash = Act::Sigmoid.apply(reward);
                proof {
                    assert(reward == fold_advantage(rs0, ep, relax, k_new));
                }
                snet.rescale_gradient(squash);
                let mut rvec: Vec<i64> = Vec::new();
                rvec.push(reward);
                proof {
                    assert(rvec@ =~= seq![reward]);
                    crate::model::lemma_same_shape_trans(s0, reset_models(s0), sscore.model());
                    assert(sscore.model().last().no == 1);
                }
                let _dout = sscore.update_gradient(SCALE, &rvec);
                proof {
                    assert(sscore.model() == score_step_grad(
                        rs0,
                        ep[t].input,
                        fold_advantage(rs0, ep, relax, k_new),
                    ));
                    assert(snet.model() == rescale_models(
                        step_grad(r0, ep[t].input, ep[t].action),
                        crate::activation::spec_apply(
                            Act::Sigmoid,
                            fold_advantage(rs0, ep, relax, k_new),
                        ),
                    ));
                    crate::model::lemma_same_shape_sym(cum_net.model(), m0);
                    crate::model::lemma_same_shape_trans(cum_net.model(), m0, snet.model());
                    crate::model::lemma_same_shape_sym(cum_score.model(), s0);
                    crate::model::lemma_same_shape_trans(cum_score.model(), s0, sscore.model());
                }
                cum_net.add_gradient(&snet);
                cum_score.add_gradient(&sscore);
                proof {
                    assert(cum_net.model() == fold_net(r0, rs0, ep, relax, k_new));
                    assert(cum_score.model() == fold_score(rs0, ep, relax, k_new));
                }
            }
            let ghost pre_net = cum_net.model();
            let ghost pre_score = cum_score.model();
            proof {
                assert(pre_net == fold_net(r0, rs0, ep, relax, ep.len()));
                assert(pre_score == fold_score(rs0, ep, relax, ep.len()));
            }
            cum_net.normalize_gradient();
            cum_score.normalize_gradient();
            proof {
                crate::model::lemma_same_shape_trans(m0, pre_net, cum_net.model());
                crate::model::lemma_same_shape_trans(s0, pre_score, cum_score.model());
                crate::model::lemma_same_shape_sym(self.network.model(), m0);
                crate::model::lemma_same_shape_trans(self.network.model(), m0, cum_net.model());
                crate::model::lemma_same_shape_sym(self.score_network.model(), s0);
                crate::model::lemma_same_shape_trans(
                    self.score_network.model(),
                    s0,
                    cum_score.model(),
                );
            }
            let ghost master_net_before = self.network.model();
            let ghost master_score_before = self.score_network.model();
            self.network.add_gradient(&cum_net);
            self.score_network.add_gradient(&cum_score);
            proof {
                let cs_old = cs;
                let ss_old = ss;
                let eps_old = eps;
                let cs2 = cs.push(cum_net.model());
                let ss2 = ss.push(cum_score.model());
                assert(cs2.drop_last() =~= cs);
                assert(ss2.drop_last() =~= ss);
                assert(cs2.last() == cum_net.model());
                assert(ss2.last() == cum_score.model());
                assert(sum_contribs(r0, cs2) == add_models(master_net_before, cum_net.model()));
                assert(sum_contribs(rs0, ss2) == add_models(
                    master_score_before,
                    cum_score.model(),
                ));
                assert(cum_net.model() == normalized(pre_net));
                assert(cum_score.model() == normalized(pre_score));
                cs = cs2;
                ss = ss2;
                eps = eps.push(ep);
                assert forall|i: int|
                    #![trigger eps[i]]
                    0 <= i < j + 1 ==> {
                        &&& valid_episode(
                            ctx_to_action_in,
                            physics_cost,
                            old(ctx_list)@[i],
                            eps[i],
                            max_iter as nat,
                        )
                        &&& actions_sampled(r0, meta_parameters.sigma, eps[i])
                        &&& ctx_list@[i] == (if eps[i].len() == 0 {
                            old(ctx_list)@[i]
                        } else {
                            eps[i].last().ctx_next
                        })
                        &&& cs[i] == normalized(fold_net(r0, rs0, eps[i], relax, eps[i].len()))
                        &&& ss[i] == normalized(fold_score(rs0, eps[i], relax, eps[i].len()))
                    } by {
                    if 0 <= i < j {
                        assert(eps[i] == eps_old[i]);
                        assert(cs[i] == cs_old[i]);
                        assert(ss[i] == ss_old[i]);
                    } else if i == j {
                        assert(eps[i] == ep);
                        assert(cs[i] == normalized(pre_net));
                        assert(ss[i] == normalized(pre_score));
                    }
                }
                crate::model::lemma_same_shape_sym(cum_net.model(), m0);
                crate::model::lemma_elementwise_props(master_net_before, 0, 0, cum_net.model());
                crate::model::lemma_same_shape_trans(m0, master_net_before, self.network.model());
                crate::model::lemma_elementwise_props(
                    master_score_before,
                    0,
                    0,
                    cum_score.model(),
                );
                crate::model::lemma_same_shape_trans(
                    s0,
                    master_score_before,
                    self.score_network.model(),
                );
            }
            j += 1;
        }
        let ghost summed_net = self.network.model();
        let ghost summed_score = self.score_network.model();
        if n > 0 {
            let step_alpha = fx_divn(meta_parameters.alpha, n as i64);
            self.network.apply_gradient(step_alpha);
            let step_alpha_score = fx_divn(meta_parameters.alpha_score, n as i64);
            self.score_network.apply_gradient(step_alpha_score);
            proof {
                crate::model::lemma_elementwise_props(summed_net, step_alpha, 0, summed_net);
                crate::model::lemma_same_shape_trans(m0, summed_net, self.network.model());
                crate::model::lemma_elementwise_props(
                    summed_score,
                    step_alpha_score,
                    0,
                    summed_score,
                );
                crate::model::lemma_same_shape_trans(s0, summed_score, self.score_network.model());
            }
        }
        let ghost applied_net = self.network.model();
        let ghost applied_score = self.score_network.model();
        self.network.reset_gradient();
        self.score_network.reset_gradient();
        proof {
            crate::model::lemma_elementwise_props(applied_net, 0, 0, applied_net);
            crate::model::lemma_same_shape_trans(m0, applied_net, self.network.model());
            crate::model::lemma_elementwise_props(applied_score, 0, 0, applied_score);
            crate::model::lemma_same_shape_trans(s0, applied_score, self.score_network.model());
            if n0 == 0 {
                assert(summed_net == r0);
                assert(summed_score == rs0);
                crate::model::lemma_reset_idempotent(m0);
                crate::model::lemma_reset_idempotent(s0);
            } else {
                assert forall|i: int| #![trigger cs[i]]
                    0 <= i < cs.len() ==> exists|raw: Seq<LayerModel>| cs[i] == normalized(
                    raw,
                ) by {
                    if 0 <= i < cs.len() {
                        assert(cs[i] == normalized(fold_net(r0, rs0, eps[i], relax, eps[i].len())));
                    }
                }
                assert forall|i: int| #![trigger ss[i]]
                    0 <= i < ss.len() ==> exists|raw: Seq<LayerModel>| ss[i] == normalized(
                    raw,
                ) by {
                    if 0 <= i < ss.len() {
                        assert(ss[i] == normalized(fold_score(rs0, eps[i], relax, eps[i].len())));
                    }
                }
                assert(is_batch_of(
                    m0,
                    self.network.model(),
                    cs,
                    meta_parameters.alpha,
                    n0 as i64,
                ));
                assert(is_batch_of(
                    s0,
                    self.score_network.model(),
                    ss,
                    meta_parameters.alpha_score,
                    n0 as i64,
                ));
            }
            assert(batch_witness(cs, ss, eps));
            assert(self.net_model()[0].ni == m0[0].ni);
            assert(self.score_model()[0].ni == s0[0].ni);
            assert(self.score_model().last().no == s0.last().no);
        }
    }
}

impl Reinforcement {
    /// Read access to the policy network.
    pub fn network_ref(&self) -> (r: &Network)
        ensures
            r.model() == self.net_model(),
            r.shape() == self.net_shape(),
    {
        &self.network
    }

    /// Read access to the value network.
    pub fn score_network_ref(&self) -> (r: &Network)
        ensures
            r.model() == self.score_model(),
            r.shape() == self.score_shape(),
    {
        &self.score_network
    }

    /// The gradient blending rate of the last batch.
    pub fn relaxation_value(&self) -> (r: i64)
        ensures
            r == self.relaxation(),
    {
        self.relaxation
    }
}

impl Clone for Reinforcement {
    /// An exact copy of the engine: same networks, same blending rate.
    fn clone(&self) -> (c: Self)
        ensures
            c.net_model() == self.net_model(),
            c.score_model() == self.score_model(),
            c.net_shape() == self.net_shape(),
            c.score_shape() == self.score_shape(),
            c.relaxation() == self.relaxation(),
    {
        Reinforcement {
            network: self.network.clone(),
            score_network: self.score_network.clone(),
            relaxation: self.relaxation,
        }
    }
}

} // verus!
