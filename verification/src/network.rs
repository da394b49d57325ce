//! Composition of layers into a feed-forward network.
//!
//! A network is either one layer or a chain of two networks, the head
//! feeding the tail.  Every operation forwards through the composition, and
//! its contract equals the corresponding model function on the flattened
//! chain of layers, so any two associations of the same layers behave
//! identically.

use vstd::prelude::*;
use crate::fx::{fx_add, fx_div, fx_mul, fx_sqrt, fx_sub, SCALE};
use crate::layer::Layer;
use crate::model::{
    apply_models, chain_wf, fwd_models, fwd_out, lemma_add_concat, lemma_apply_concat,
    lemma_chain_norm2_nonneg, lemma_chain_wf_join, lemma_chain_wf_split, lemma_elementwise_props,
    lemma_fwd_concat, lemma_fwd_props, lemma_norm2_concat, lemma_param_count_bounds,
    lemma_param_count_concat, lemma_randomized_join, lemma_rescale_concat, lemma_reset_concat,
    lemma_upd_concat, lemma_upd_props, normalized, randomized_from, same_shape, upd_dout,
    upd_models,
    LayerModel, Shape,
};
use crate::training::{BackProp, Eval, Gradient, Weights};

verus! {

/// A feed-forward network: one layer, or a head network feeding a tail
/// network.
pub enum Network {
    Single(Layer),
    Chain(Box<Network>, Box<Network>),
}

impl Network {
    /// Height of the composition tree; the termination measure of the
    /// recursive operations.
    pub open spec fn height(&self) -> nat
        decreases self,
    {
        match self {
            Network::Single(_) => 0,
            Network::Chain(h, t) => 1 + vstd::math::max(h.height() as int, t.height() as int)
                as nat,
        }
    }

    /// A network of one layer.
    pub fn single(l: Layer) -> (n: Network)
        ensures
            n.model() == l.model(),
            n.shape() == Shape::Leaf,
            n == Network::Single(l),
    {
        Network::Single(l)
    }

    /// The chain of two networks; the head's output width must feed the
    /// tail's input width.
    pub fn chain(head: Network, tail: Network) -> (n: Network)
        requires
            chain_wf(head.model()),
            chain_wf(tail.model()),
            head.model().last().no == tail.model()[0].ni,
            head.model().len() + tail.model().len() <= 1024,
        ensures
            n.model() == head.model() + tail.model(),
            chain_wf(n.model()),
            n == Network::Chain(Box::new(head), Box::new(tail)),
    {
        proof {
            lemma_chain_wf_join(head.model(), tail.model());
        }
        Network::Chain(Box::new(head), Box::new(tail))
    }

    /// Every network stands for at least one layer.
    pub proof fn lemma_model_nonempty(&self)
        ensures
            self.model().len() >= 1,
        decreases self,
    {
        match self {
            Network::Single(_) => {},
            Network::Chain(h, t) => {
                h.lemma_model_nonempty();
                t.lemma_model_nonempty();
            },
        }
    }

    /// The number of layers a shape stands for.
    pub open spec fn shape_size(s: Shape) -> nat
        decreases s,
    {
        match s {
            Shape::Leaf => 1,
            Shape::Node(a, b) => Self::shape_size(*a) + Self::shape_size(*b),
        }
    }

    /// A network's layer count is determined by its shape.
    pub proof fn lemma_model_len_shape(&self)
        ensures
            self.model().len() == Self::shape_size(self.shape()),
        decreases self,
    {
        match self {
            Network::Single(_) => {},
            Network::Chain(h, t) => {
                h.lemma_model_len_shape();
                t.lemma_model_len_shape();
            },
        }
    }

    /// Per-unit declared output range: the range of the final layer's
    /// activation.
    pub fn output_ranges(&self) -> (r: Vec<(Option<i64>, Option<i64>)>)
        requires
            chain_wf(self.model()),
        ensures
            r@.len() == self.model().last().no,
            forall|k: int| 0 <= k < r@.len() ==> (#[trigger] r@[k]).0 == crate::activation::spec_lo(
                self.model().last().act,
            ) && r@[k].1 == crate::activation::spec_hi(self.model().last().act),
        decreases self.height(),
    {
        match self {
            Network::Single(l) => {
                proof {
                    assert(self.model().last() == l.lm());
                }
                l.output_ranges()
            },
            Network::Chain(h, t) => {
                proof {
                    h.lemma_model_nonempty();
                    t.lemma_model_nonempty();
                    lemma_chain_wf_split(h.model(), t.model());
                    assert(self.model().last() == t.model().last());
                }
                t.output_ranges()
            },
        }
    }

    /// Replace all weights and biases by fresh random values within the
    /// per-layer fan-in bound; gradients and caches stay as they are.
    pub fn randomize(&mut self, rng: &mut rand::rngs::StdRng)
        requires
            chain_wf(old(self).model()),
        ensures
            chain_wf(final(self).model()),
            randomized_from(final(self).model(), old(self).model()),
            final(self).shape() == old(self).shape(),
        decreases old(self).height(),
    {
        match self {
            Network::Single(l) => {
                l.randomize(rng);
            },
            Network::Chain(h, t) => {
                proof {
                    h.lemma_model_nonempty();
                    t.lemma_model_nonempty();
                    lemma_chain_wf_split(h.model(), t.model());
                }
                let ghost hm = h.model();
                let ghost tm = t.model();
                h.randomize(rng);
                t.randomize(rng);
                proof {
                    lemma_randomized_join(h.model(), t.model(), hm, tm);
                    crate::model::lemma_wf_from_shape(old(self).model(), self.model());
                }
            },
        }
    }
}

impl Weights for Network {
    open spec fn model(&self) -> Seq<LayerModel>
        decreases self,
    {
        match self {
            Network::Single(l) => l.model(),
            Network::Chain(h, t) => h.model() + t.model(),
        }
    }

    open spec fn shape(&self) -> Shape
        decreases self,
    {
        match self {
            Network::Single(_) => Shape::Leaf,
            Network::Chain(h, t) => Shape::Node(Box::new(h.shape()), Box::new(t.shape())),
        }
    }

    fn weights_len(&self) -> (n: usize)
        decreases self.height(),
    {
        match self {
            Network::Single(l) => l.weights_len(),
            Network::Chain(h, t) => {
                proof {
                    h.lemma_model_nonempty();
                    t.lemma_model_nonempty();
                    lemma_chain_wf_split(h.model(), t.model());
                    lemma_param_count_concat(h.model(), t.model());
                    lemma_param_count_bounds(h.model());
                    lemma_param_count_bounds(t.model());
                    assert(h.model().len() * 0x100800 + t.model().len() * 0x100800 <= 1024
                        * 0x100800) by (nonlinear_arith)
                        requires
                            h.model().len() + t.model().len() <= 1024,
                    ;
                }
                h.weights_len() + t.weights_len()
            },
        }
    }
}

impl Eval for Network {
    fn input_len(&self) -> (n: usize)
        decreases self.height(),
    {
        match self {
            Network::Single(l) => l.input_len(),
            Network::Chain(h, t) => {
                proof {
                    h.lemma_model_nonempty();
                    t.lemma_model_nonempty();
                    lemma_chain_wf_split(h.model(), t.model());
                    assert(self.model()[0] == h.model()[0]);
                }
                h.input_len()
            },
        }
    }

    fn output_len(&self) -> (n: usize)
        decreases self.height(),
    {
        match self {
            Network::Single(l) => l.output_len(),
            Network::Chain(h, t) => {
                proof {
                    h.lemma_model_nonempty();
                    t.lemma_model_nonempty();
                    lemma_chain_wf_split(h.model(), t.model());
                    assert(self.model().last() == t.model().last());
                }
                t.output_len()
            },
        }
    }

    fn forward(&mut self, input: &Vec<i64>) -> (out: Vec<i64>)
        decreases old(self).height(),
    {
        match self {
            Network::Single(l) => l.forward(input),
            Network::Chain(h, t) => {
                let ghost hm = h.model();
                let ghost tm = t.model();
                let ghost x = input@;
                proof {
                    h.lemma_model_nonempty();
                    t.lemma_model_nonempty();
                    lemma_chain_wf_split(hm, tm);
                    assert((hm + tm)[0] == hm[0]);
                    lemma_fwd_props(hm, x);
                }
                let mid = h.forward(input);
                let out = t.forward(&mid);
                proof {
                    lemma_fwd_concat(hm, tm, x);
                    lemma_fwd_props(hm + tm, x);
                    assert((hm + tm).last() == tm.last());
                }
                out
            },
        }
    }
}

impl BackProp for Network {
    fn update_gradient(&mut self, relaxation: i64, delta: &Vec<i64>) -> (dout: Vec<i64>)
        decreases old(self).height(),
    {
        match self {
            Network::Single(l) => l.update_gradient(relaxation, delta),
            Network::Chain(h, t) => {
                let ghost hm = h.model();
                let ghost tm = t.model();
                let ghost d = delta@;
                proof {
                    h.lemma_model_nonempty();
                    t.lemma_model_nonempty();
                    lemma_chain_wf_split(hm, tm);
                    assert((hm + tm).last() == tm.last());
                    lemma_upd_props(tm, relaxation, d);
                }
                let dmid = t.update_gradient(relaxation, delta);
                let dout = h.update_gradient(relaxation, &dmid);
                proof {
                    lemma_upd_concat(hm, tm, relaxation, d);
                    lemma_upd_props(hm + tm, relaxation, d);
                    assert((hm + tm)[0] == hm[0]);
                }
                dout
            },
        }
    }
}

impl Gradient for Network {
    fn reset_gradient(&mut self)
        decreases old(self).height(),
    {
        match self {
            Network::Single(l) => l.reset_gradient(),
            Network::Chain(h, t) => {
                let ghost hm = h.model();
                let ghost tm = t.model();
                proof {
                    h.lemma_model_nonempty();
                    t.lemma_model_nonempty();
                    lemma_chain_wf_split(hm, tm);
                }
                h.reset_gradient();
                t.reset_gradient();
                proof {
                    lemma_reset_concat(hm, tm);
                    lemma_elementwise_props(hm + tm, 0, 0, hm + tm);
                }
            },
        }
    }

    fn apply_gradient(&mut self, alpha: i64)
        decreases old(self).height(),
    {
        match self {
            Network::Single(l) => l.apply_gradient(alpha),
            Network::Chain(h, t) => {
                let ghost hm = h.model();
                let ghost tm = t.model();
                proof {
                    h.lemma_model_nonempty();
                    t.lemma_model_nonempty();
                    lemma_chain_wf_split(hm, tm);
                }
                h.apply_gradient(alpha);
                t.apply_gradient(alpha);
                proof {
                    lemma_apply_concat(hm, tm, alpha);
                    lemma_elementwise_props(hm + tm, alpha, 0, hm + tm);
                }
            },
        }
    }

    fn rescale_gradient(&mut self, a: i64)
        decreases old(self).height(),
    {
        match self {
            Network::Single(l) => l.rescale_gradient(a),
            Network::Chain(h, t) => {
                let ghost hm = h.model();
                let ghost tm = t.model();
                proof {
                    h.lemma_model_nonempty();
                    t.lemma_model_nonempty();
                    lemma_chain_wf_split(hm, tm);
                }
                h.rescale_gradient(a);
                t.rescale_gradient(a);
                proof {
                    lemma_rescale_concat(hm, tm, a);
                    lemma_elementwise_props(hm + tm, 0, a, hm + tm);
                }
            },
        }
    }

    fn norm2_gradient(&self) -> (n: i64)
        decreases self.height(),
    {
        match self {
            Network::Single(l) => l.norm2_gradient(),
            Network::Chain(h, t) => {
                proof {
                    h.lemma_model_nonempty();
                    t.lemma_model_nonempty();
                    lemma_chain_wf_split(h.model(), t.model());
                    lemma_norm2_concat(h.model(), t.model());
                    lemma_chain_norm2_nonneg(self.model());
                }
                fx_add(h.norm2_gradient(), t.norm2_gradient())
            },
        }
    }

    fn add_gradient(&mut self, rhs: &Self)
        decreases old(self).height(),
    {
        match (self, rhs) {
            (Network::Single(l), Network::Single(r)) => {
                l.add_gradient(r);
            },
            (Network::Chain(h, t), Network::Chain(rh, rt)) => {
                let ghost hm = h.model();
                let ghost tm = t.model();
                proof {
                    h.lemma_model_nonempty();
                    t.lemma_model_nonempty();
                    rh.lemma_model_nonempty();
                    rt.lemma_model_nonempty();
                    lemma_chain_wf_split(hm, tm);
                    lemma_chain_wf_split(rh.model(), rt.model());
                    h.lemma_model_len_shape();
                    rh.lemma_model_len_shape();
                    t.lemma_model_len_shape();
                    rt.lemma_model_len_shape();
                    assert(rh.shape() == h.shape());
                    assert(rt.shape() == t.shape());
                    assert(rh.model().len() == hm.len());
                    crate::model::lemma_same_shape_split(hm, tm, rh.model(), rt.model());
                }
                h.add_gradient(rh);
                t.add_gradient(rt);
                proof {
                    lemma_add_concat(hm, tm, rh.model(), rt.model());
                    lemma_elementwise_props(hm + tm, 0, 0, rh.model() + rt.model());
                }
            },
            _ => {
                proof {
                    assert(false);
                }
                unreached()
            },
        }
    }

    fn normalize_gradient(&mut self)
        decreases old(self).height(),
    {
        let n2 = self.norm2_gradient();
        if n2 > 0 {
            let rt = fx_sqrt(n2);
            let s = fx_div(SCALE, rt);
            self.rescale_gradient(s);
        }
    }
}

impl Clone for Network {
    /// An exact copy: same composition tree, same model.
    fn clone(&self) -> (c: Self)
        ensures
            c.model() == self.model(),
            c.shape() == self.shape(),
        decreases self.height(),
    {
        match self {
            Network::Single(l) => Network::Single(l.clone()),
            Network::Chain(h, t) => Network::Chain(
                Box::new((&**h).clone()),
                Box::new((&**t).clone()),
            ),
        }
    }
}

/// Composition of layer chains is associative: a three-stage network built
/// as `first + (second + third)` and as `(first + second) + third` is the
/// same chain of layers, so it computes the same forward outputs, the same
/// updated gradients and the same backpropagated deltas on every input.
pub proof fn lemma_composition_associative(
    a: Seq<LayerModel>,
    b: Seq<LayerModel>,
    c: Seq<LayerModel>,
    x: Seq<i64>,
    r: i64,
    d: Seq<i64>,
)
    ensures
        (a + b) + c == a + (b + c),
        fwd_out((a + b) + c, x) == fwd_out(a + (b + c), x),
        fwd_models((a + b) + c, x) == fwd_models(a + (b + c), x),
        upd_models((a + b) + c, r, d) == upd_models(a + (b + c), r, d),
        upd_dout((a + b) + c, r, d) == upd_dout(a + (b + c), r, d),
{
    assert((a + b) + c =~= a + (b + c));
}

// ---------------------------------------------------------------- training --

/// The per-unit training delta `target - output`.
pub open spec fn delta_of(t: Seq<i64>, o: Seq<i64>) -> Seq<i64> {
    Seq::new(t.len(), |k: int| crate::fx::fxs_sub(t[k], o[k]))
}

/// Squared error of the first `n` units of a delta, folded in index order.
pub open spec fn sq_err_acc(d: Seq<i64>, n: nat) -> i64
    decreases n,
{
    if n == 0 {
        0
    } else {
        crate::fx::fxs_add(sq_err_acc(d, (n - 1) as nat), crate::fx::fxs_mul(d[n - 1], d[n - 1]))
    }
}

/// The views of a training set held as vectors.
pub open spec fn pair_views(data: Seq<(Vec<i64>, Vec<i64>)>) -> Seq<(Seq<i64>, Seq<i64>)> {
    Seq::new(data.len(), |k: int| (data[k].0@, data[k].1@))
}

/// One supervised step on one sample: forward, backpropagate
/// `target - output` with full overwrite, normalize, and step by `alpha`.
pub open spec fn train_sample(
    m: Seq<LayerModel>,
    x: Seq<i64>,
    t: Seq<i64>,
    alpha: i64,
) -> Seq<LayerModel> {
    apply_models(
        normalized(upd_models(fwd_models(m, x), SCALE, delta_of(t, fwd_out(m, x)))),
        alpha,
    )
}

/// The model after the first `k` samples of one pass.
pub open spec fn train_pass(
    m: Seq<LayerModel>,
    dd: Seq<(Seq<i64>, Seq<i64>)>,
    alpha: i64,
    k: nat,
) -> Seq<LayerModel>
    decreases k,
{
    if k == 0 {
        m
    } else {
        let prev = train_pass(m, dd, alpha, (k - 1) as nat);
        train_sample(prev, dd[k - 1].0, dd[k - 1].1, alpha)
    }
}

/// The squared error accumulated over the first `k` samples of one pass,
/// each sample measured on the model it was evaluated with.
pub open spec fn pass_err(
    m: Seq<LayerModel>,
    dd: Seq<(Seq<i64>, Seq<i64>)>,
    alpha: i64,
    k: nat,
) -> i64
    decreases k,
{
    if k == 0 {
        0
    } else {
        let prev = train_pass(m, dd, alpha, (k - 1) as nat);
        let d = delta_of(dd[k - 1].1, fwd_out(prev, dd[k - 1].0));
        crate::fx::fxs_add(pass_err(m, dd, alpha, (k - 1) as nat), sq_err_acc(d, d.len()))
    }
}

/// The model after `n` full passes over the training set.
pub open spec fn train_iters(
    m: Seq<LayerModel>,
    dd: Seq<(Seq<i64>, Seq<i64>)>,
    alpha: i64,
    n: nat,
) -> Seq<LayerModel>
    decreases n,
{
    if n == 0 {
        m
    } else {
        train_pass(train_iters(m, dd, alpha, (n - 1) as nat), dd, alpha, dd.len())
    }
}

impl Network {
    /// Supervised training (ascent convention): in each of `iterations`
    /// passes over the data, every `(input, target)` sample is run forward,
    /// the delta `target - output` is backpropagated with full overwrite,
    /// the gradient is normalized to unit norm, and one step of `alpha` is
    /// applied.  Returns the accumulated squared error of the final pass
    /// (0 when no pass ran).
    pub fn train(
        &mut self,
        iterations: usize,
        alpha: i64,
        data: &Vec<(Vec<i64>, Vec<i64>)>,
    ) -> (err: i64)
        requires
            chain_wf(old(self).model()),
            forall|k: int|
                0 <= k < data@.len() ==> (#[trigger] data@[k]).0@.len() == old(self).model()[0].ni,
            forall|k: int|
                0 <= k < data@.len() ==> (#[trigger] data@[k]).1@.len()
                    == old(self).model().last().no,
        ensures
            final(self).model() == train_iters(
                old(self).model(),
                pair_views(data@),
                alpha,
                iterations as nat,
            ),
            chain_wf(final(self).model()),
            same_shape(final(self).model(), old(self).model()),
            final(self).shape() == old(self).shape(),
            iterations > 0 ==> err == pass_err(
                train_iters(old(self).model(), pair_views(data@), alpha, (iterations - 1) as nat),
                pair_views(data@),
                alpha,
                data@.len(),
            ),
            iterations == 0 ==> err == 0,
    {
        let ghost m0 = old(self).model();
        let ghost dd = pair_views(data@);
        let mut err: i64 = 0;
        let n_data = data.len();
        let mut it: usize = 0;
        while it < iterations
            invariant
                it <= iterations,
                chain_wf(self.model()),
                same_shape(self.model(), m0),
                self.shape() == old(self).shape(),
                self.model() == train_iters(m0, dd, alpha, it as nat),
                dd == pair_views(data@),
                n_data == data@.len(),
                forall|k: int| 0 <= k < data@.len() ==> (#[trigger] data@[k]).0@.len() == m0[0].ni,
                forall|k: int|
                    0 <= k < data@.len() ==> (#[trigger] data@[k]).1@.len() == m0.last().no,
                it > 0 ==> err == pass_err(
                    train_iters(m0, dd, alpha, (it - 1) as nat),
                    dd,
                    alpha,
                    dd.len(),
                ),
                it == 0 ==> err == 0,
            decreases iterations - it,
        {
            let ghost base = self.model();
            err = 0;
            let mut j: usize = 0;
            while j < n_data
                invariant
                    j <= n_data,
                    chain_wf(self.model()),
                    chain_wf(base),
                    same_shape(base, m0),
                    same_shape(self.model(), m0),
                    self.shape() == old(self).shape(),
                    self.model() == train_pass(base, dd, alpha, j as nat),
                    err == pass_err(base, dd, alpha, j as nat),
                    dd == pair_views(data@),
                    n_data == data@.len(),
                    forall|k: int|
                        0 <= k < data@.len() ==> (#[trigger] data@[k]).0@.len() == m0[0].ni,
                    forall|k: int|
                        0 <= k < data@.len() ==> (#[trigger] data@[k]).1@.len() == m0.last().no,
                decreases n_data - j,
            {
                let ghost prev = self.model();
                let input = &data[j].0;
                let target = &data[j].1;
                proof {
                    assert(data@[j as int].0@.len() == m0[0].ni);
                    assert(self.model()[0].ni == m0[0].ni);
                    assert(m0.len() >= 1);
                }
                let out = self.forward(input);
                let mut delta: Vec<i64> = Vec::new();
                let mut serr: i64 = 0;
                let tlen = target.len();
                let ghost dsp = delta_of(target@, out@);
                proof {
                    assert(self.model().last().no == m0.last().no);
                    assert(prev.last().no == m0.last().no);
                    assert(out@.len() == prev.last().no);
                }
                let mut k: usize = 0;
                while k < tlen
                    invariant
                        k <= tlen,
                        tlen == target@.len(),
                        out@.len() == target@.len(),
                        delta@.len() == k,
                        forall|q: int| 0 <= q < k ==> (#[trigger] delta@[q]) == dsp[q],
                        serr == sq_err_acc(dsp, k as nat),
                        dsp == delta_of(target@, out@),
                    decreases tlen - k,
                {
                    let dk = fx_sub(target[k], out[k]);
                    serr = fx_add(serr, fx_mul(dk, dk));
                    delta.push(dk);
                    k += 1;
                }
                proof {
                    assert(delta@ =~= dsp);
                }
                let _dmid = self.update_gradient(SCALE, &delta);
                self.normalize_gradient();
                self.apply_gradient(alpha);
                err = fx_add(err, serr);
                j += 1;
                proof {
                    assert(dd[j - 1].0 == data@[j - 1].0@);
                    assert(dd[j - 1].1 == data@[j - 1].1@);
                    assert(self.model() == train_sample(prev, dd[j - 1].0, dd[j - 1].1, alpha));
                    assert(train_pass(base, dd, alpha, j as nat) == train_sample(
                        train_pass(base, dd, alpha, (j - 1) as nat),
                        dd[j - 1].0,
                        dd[j - 1].1,
                        alpha,
                    ));
                    assert(dsp.len() == dd[j - 1].1.len());
                    crate::model::lemma_same_shape_trans(m0, prev, self.model());
                }
            }
            it += 1;
            proof {
                assert(train_iters(m0, dd, alpha, it as nat) == train_pass(
                    train_iters(m0, dd, alpha, (it - 1) as nat),
                    dd,
                    alpha,
                    dd.len(),
                ));
            }
        }
        err
    }
}

} // verus!
