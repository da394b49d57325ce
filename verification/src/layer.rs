//! One affine layer with an activation.
//!
//! The layer owns its weight matrix and bias, an accumulated gradient of the
//! same shape, and the caches of the last forward pass that backpropagation
//! reads.  Every operation is proved to compute exactly the corresponding
//! model function of [`crate::model`] on the layer's one-element chain.

use vstd::prelude::*;
use crate::activation::Act;
use crate::fx::{fx_add, fx_div, fx_mul, fx_sqrt, fx_sub, SCALE};
use crate::model::{
    add_models, apply_layer, chain_norm2, chain_param_count, chain_wf, dot_acc, dout_acc,
    layer_dout, layer_fwd, layer_norm2_upto, layer_out, layer_pre, layer_pre_seq, layer_upd,
    layer_wf, lemma_chain_norm2_nonneg, lemma_singleton_ops, loc_delta, normalized, rand_bound,
    randomized_from, reset_layer, rescale_layer, row_norm2_from, LayerModel,
};
use crate::rng::next_symmetric;
use crate::training::{BackProp, Eval, Gradient, Weights};

verus! {

/// The sequence of rows of a matrix held as a vector of vectors.
pub open spec fn mat_view(v: Vec<Vec<i64>>) -> Seq<Seq<i64>> {
    Seq::new(v@.len(), |o: int| v@[o]@)
}

/// A vector of `n` zeros.
fn zeros(n: usize) -> (v: Vec<i64>)
    ensures
        v@ == Seq::new(n as nat, |i: int| 0i64),
        v@.len() == n,
{
    let mut v: Vec<i64> = Vec::new();
    for k in 0..n
        invariant
            v@.len() == k,
            forall|i: int| 0 <= i < k ==> v@[i] == 0,
    {
        v.push(0);
    }
    proof {
        assert(v@ =~= Seq::new(n as nat, |i: int| 0i64));
    }
    v
}

/// An exact copy of a vector of raw values.
fn copy_vec(src: &Vec<i64>) -> (v: Vec<i64>)
    ensures
        v@ == src@,
{
    let mut v: Vec<i64> = Vec::new();
    let n = src.len();
    for k in 0..n
        invariant
            n == src@.len(),
            v@.len() == k,
            forall|i: int| 0 <= i < k ==> v@[i] == src@[i],
    {
        v.push(src[k]);
    }
    proof {
        assert(v@ =~= src@);
    }
    v
}

/// One affine transform plus activation: `out[o] = act(b[o] + sum_i
/// w[o][i] * in[i])`.
pub struct Layer {
    ni: usize,
    no: usize,
    act: Act,
    w: Vec<Vec<i64>>,
    b: Vec<i64>,
    gw: Vec<Vec<i64>>,
    gb: Vec<i64>,
    cin: Vec<i64>,
    cpre: Vec<i64>,
}

impl Layer {
    /// The layer as a mathematical model.
    pub closed spec fn lm(&self) -> LayerModel {
        LayerModel {
            ni: self.ni as nat,
            no: self.no as nat,
            act: self.act,
            w: mat_view(self.w),
            b: self.b@,
            gw: mat_view(self.gw),
            gb: self.gb@,
            cin: self.cin@,
            cpre: self.cpre@,
        }
    }

    /// A fresh layer with the given widths and activation: all weights,
    /// biases, gradients and caches zero.
    pub fn new(ni: usize, no: usize, act: Act) -> (l: Layer)
        requires
            1 <= ni <= 1024,
            1 <= no <= 1024,
        ensures
            chain_wf(l.model()),
            l.model() == seq![l.lm()],
            l.lm().ni == ni,
            l.lm().no == no,
            l.lm().act == act,
            l.lm().w == Seq::new(no as nat, |o: int| Seq::new(ni as nat, |i: int| 0i64)),
            l.lm().b == Seq::new(no as nat, |o: int| 0i64),
            l.lm().gw == Seq::new(no as nat, |o: int| Seq::new(ni as nat, |i: int| 0i64)),
            l.lm().gb == Seq::new(no as nat, |o: int| 0i64),
            l.lm().cin == Seq::new(ni as nat, |i: int| 0i64),
            l.lm().cpre == Seq::new(no as nat, |o: int| 0i64),
    {
        let mut w: Vec<Vec<i64>> = Vec::new();
        let mut gw: Vec<Vec<i64>> = Vec::new();
        for o in 0..no
            invariant
                ni >= 1,
                w@.len() == o,
                gw@.len() == o,
                forall|k: int| 0 <= k < o ==> (#[trigger] w@[k])@ == Seq::new(
                    ni as nat,
                    |i: int| 0i64,
                ),
                forall|k: int| 0 <= k < o ==> (#[trigger] gw@[k])@ == Seq::new(
                    ni as nat,
                    |i: int| 0i64,
                ),
        {
            w.push(zeros(ni));
            gw.push(zeros(ni));
        }
        let l = Layer {
            ni,
            no,
            act,
            w,
            b: zeros(no),
            gw,
            gb: zeros(no),
            cin: zeros(ni),
            cpre: zeros(no),
        };
        proof {
            assert(l.lm().w =~= Seq::new(no as nat, |o: int| Seq::new(ni as nat, |i: int| 0i64)));
            assert(l.lm().gw =~= Seq::new(no as nat, |o: int| Seq::new(ni as nat, |i: int| 0i64)));
            assert(layer_wf(l.lm()));
            assert(l.model() =~= seq![l.lm()]);
            assert(chain_wf(l.model()));
        }
        l
    }

    /// Per-unit declared output range of the layer's activation.
    pub fn output_ranges(&self) -> (r: Vec<(Option<i64>, Option<i64>)>)
        requires
            chain_wf(self.model()),
        ensures
            r@.len() == self.lm().no,
            forall|k: int| 0 <= k < r@.len() ==> (#[trigger] r@[k]).0 == crate::activation::spec_lo(
                self.lm().act,
            ) && r@[k].1 == crate::activation::spec_hi(self.lm().act),
    {
        let mut r: Vec<(Option<i64>, Option<i64>)> = Vec::new();
        let n = self.no;
        for k in 0..n
            invariant
                n == self.no,
                r@.len() == k,
                forall|j: int| 0 <= j < k ==> (#[trigger] r@[j]).0 == crate::activation::spec_lo(
                    self.lm().act,
                ) && r@[j].1 == crate::activation::spec_hi(self.lm().act),
        {
            r.push(self.act.range());
        }
        r
    }

    /// Replace weights and biases by fresh values drawn uniformly from the
    /// symmetric interval scaled by the output fan-in; gradients and caches
    /// stay as they are.
    pub fn randomize(&mut self, rng: &mut rand::rngs::StdRng)
        requires
            chain_wf(old(self).model()),
        ensures
            chain_wf(final(self).model()),
            randomized_from(final(self).model(), old(self).model()),
    {
        let ghost l0 = self.lm();
        proof {
            assert(old(self).model()[0] == l0);
            assert(layer_wf(l0));
        }
        let bound = ((SCALE as u64) / (self.no as u64)) as i64;
        proof {
            assert(bound == rand_bound(l0.no));
            assert(0 < bound <= SCALE) by {
                vstd::arithmetic::div_mod::lemma_div_non_zero(SCALE as int, self.no as int);
                vstd::arithmetic::div_mod::lemma_div_is_ordered_by_denominator(
                    SCALE as int,
                    1,
                    self.no as int,
                );
                vstd::arithmetic::div_mod::lemma_div_basics(SCALE as int);
            }
        }
        let mut w: Vec<Vec<i64>> = Vec::new();
        let mut b: Vec<i64> = Vec::new();
        let n_out = self.no;
        let n_in = self.ni;
        for o in 0..n_out
            invariant
                n_out == self.no,
                n_in == self.ni,
                self.lm() == l0,
                layer_wf(l0),
                0 < bound <= SCALE,
                w@.len() == o,
                b@.len() == o,
                forall|k: int| 0 <= k < o ==> (#[trigger] w@[k])@.len() == n_in,
                forall|k: int, i: int|
                    0 <= k < o && 0 <= i < n_in ==> -bound <= (#[trigger] w@[k]@[i]) <= bound,
                forall|k: int| 0 <= k < o ==> -bound <= (#[trigger] b@[k]) <= bound,
        {
            let mut row: Vec<i64> = Vec::new();
            for i in 0..n_in
                invariant
                    0 < bound <= SCALE,
                    row@.len() == i,
                    forall|k: int| 0 <= k < i ==> -bound <= (#[trigger] row@[k]) <= bound,
            {
                row.push(next_symmetric(rng, bound));
            }
            w.push(row);
            b.push(next_symmetric(rng, bound));
        }
        self.w = w;
        self.b = b;
        proof {
            let f = self.lm();
            assert(f.w.len() == l0.no);
            assert(forall|o: int| 0 <= o < f.w.len() ==> (#[trigger] f.w[o]).len() == l0.ni);
            assert(layer_wf(f));
            assert(self.model() =~= seq![f]);
            assert forall|i: int, o: int, k: int|
                0 <= i < self.model().len() && 0 <= o < self.model()[i].w.len() && 0 <= k
                    < self.model()[i].w[o].len() implies -rand_bound(l0.no) <= #[trigger] self.model()[i].w[o][k]
                <= rand_bound(l0.no) by {
                assert(self.model()[i] == f);
            }
            assert forall|i: int, o: int|
                0 <= i < self.model().len() && 0 <= o < self.model()[i].b.len() implies -rand_bound(
                l0.no,
            ) <= #[trigger] self.model()[i].b[o] <= rand_bound(l0.no) by {
                assert(self.model()[i] == f);
            }
            assert(chain_wf(self.model()));
        }
    }
}

impl Clone for Layer {
    /// An exact copy: the copy's model is the original's.
    fn clone(&self) -> (c: Self)
        ensures
            c.lm() == self.lm(),
            c.model() == self.model(),
    {
        let mut w: Vec<Vec<i64>> = Vec::new();
        let mut gw: Vec<Vec<i64>> = Vec::new();
        let n = self.w.len();
        for o in 0..n
            invariant
                n == self.w@.len(),
                w@.len() == o,
                forall|k: int| 0 <= k < o ==> (#[trigger] w@[k])@ == self.w@[k]@,
        {
            w.push(copy_vec(&self.w[o]));
        }
        let ng = self.gw.len();
        for o in 0..ng
            invariant
                ng == self.gw@.len(),
                gw@.len() == o,
                forall|k: int| 0 <= k < o ==> (#[trigger] gw@[k])@ == self.gw@[k]@,
        {
            gw.push(copy_vec(&self.gw[o]));
        }
        let c = Layer {
            ni: self.ni,
            no: self.no,
            act: self.act,
            w,
            b: copy_vec(&self.b),
            gw,
            gb: copy_vec(&self.gb),
            cin: copy_vec(&self.cin),
            cpre: copy_vec(&self.cpre),
        };
        proof {
            assert(mat_view(c.w) =~~= mat_view(self.w));
            assert(mat_view(c.gw) =~~= mat_view(self.gw));
            assert(c.lm() == self.lm());
            assert(c.model() =~= self.model());
        }
        c
    }
}

impl Weights for Layer {
    open spec fn model(&self) -> Seq<LayerModel> {
        seq![self.lm()]
    }

    open spec fn shape(&self) -> crate::model::Shape {
        crate::model::Shape::Leaf
    }

    fn weights_len(&self) -> (n: usize)
        ensures
            n == chain_param_count(self.model()),
    {
        proof {
            lemma_singleton_ops(self.lm(), Seq::empty(), SCALE, Seq::empty(), 0, 0, self.lm());
            assert(self.model()[0] == self.lm());
            assert((self.ni + 1) * self.no <= 0x100800) by (nonlinear_arith)
                requires
                    0 < self.ni as int <= 1024,
                    0 < self.no as int <= 1024,
            ;
        }
        (self.ni + 1) * self.no
    }
}

impl Eval for Layer {
    fn input_len(&self) -> (n: usize) {
        proof {
            assert(self.model()[0] == self.lm());
        }
        self.ni
    }

    fn output_len(&self) -> (n: usize) {
        proof {
            assert(self.model().last() == self.lm());
        }
        self.no
    }

    fn forward(&mut self, input: &Vec<i64>) -> (out: Vec<i64>) {
        let ghost l0 = self.lm();
        proof {
            assert(old(self).model()[0] == l0);
            assert(layer_wf(l0));
        }
        let mut pre: Vec<i64> = Vec::new();
        let mut out: Vec<i64> = Vec::new();
        let n_out = self.no;
        for o in 0..n_out
            invariant
                n_out == self.no,
                self.lm() == l0,
                layer_wf(l0),
                input@.len() == l0.ni,
                pre@.len() == o,
                out@.len() == o,
                forall|k: int| 0 <= k < o ==> (#[trigger] pre@[k]) == layer_pre(l0, input@, k),
                forall|k: int| 0 <= k < o ==> (#[trigger] out@[k]) == crate::activation::spec_apply(
                    l0.act,
                    layer_pre(l0, input@, k),
                ),
        {
            let row = &self.w[o];
            let mut acc = self.b[o];
            proof {
                assert(row@ == l0.w[o as int]);
                assert(acc == l0.b[o as int]);
                assert(acc == dot_acc(l0.w[o as int], input@, l0.b[o as int], 0));
            }
            let n_in = self.ni;
            for i in 0..n_in
                invariant
                    n_in == l0.ni,
                    row@ == l0.w[o as int],
                    row@.len() == l0.ni,
                    input@.len() == l0.ni,
                    acc == dot_acc(l0.w[o as int], input@, l0.b[o as int], i as nat),
            {
                acc = fx_add(acc, fx_mul(row[i], input[i]));
            }
            pre.push(acc);
            out.push(self.act.apply(acc));
            proof {
                assert(self.act == l0.act);
                assert(acc == layer_pre(l0, input@, o as int));
            }
        }
        self.cpre = pre;
        self.cin = copy_vec(input);
        proof {
            assert(self.lm().cpre =~= layer_pre_seq(l0, input@));
            assert(self.lm() == layer_fwd(l0, input@));
            lemma_singleton_ops(l0, input@, SCALE, input@, 0, 0, l0);
            assert(self.model() =~= seq![self.lm()]);
            assert(out@ =~= layer_out(l0, input@));
            assert(old(self).model() =~= seq![l0]);
            crate::model::lemma_fwd_props(seq![l0], input@);
            assert(seq![l0].last() == l0);
        }
        out
    }
}

impl BackProp for Layer {
    fn update_gradient(&mut self, relaxation: i64, delta: &Vec<i64>) -> (dout: Vec<i64>) {
        let ghost l0 = self.lm();
        let ghost d = delta@;
        proof {
            assert(old(self).model()[0] == l0);
            assert(old(self).model().last() == l0);
            assert(layer_wf(l0));
        }
        let n_out = self.no;
        let n_in = self.ni;
        let mut dout: Vec<i64> = Vec::new();
        for i in 0..n_in
            invariant
                n_out == self.no,
                n_in == self.ni,
                self.lm() == l0,
                layer_wf(l0),
                d.len() == l0.no,
                d == delta@,
                dout@.len() == i,
                forall|k: int| 0 <= k < i ==> (#[trigger] dout@[k]) == dout_acc(l0, d, k, l0.no),
        {
            let mut acc: i64 = 0;
            proof {
                assert(acc == dout_acc(l0, d, i as int, 0));
            }
            for o in 0..n_out
                invariant
                    n_out == self.no,
                    n_in == self.ni,
                    i < n_in,
                    self.lm() == l0,
                    layer_wf(l0),
                    d.len() == l0.no,
                    d == delta@,
                    acc == dout_acc(l0, d, i as int, o as nat),
            {
                let local = fx_mul(delta[o], self.act.derivative(self.cpre[o]));
                proof {
                    assert(self.cpre@[o as int] == l0.cpre[o as int]);
                    assert(local == loc_delta(l0, d, o as int));
                    assert(self.w@[o as int]@ == l0.w[o as int]);
                }
                acc = fx_add(acc, fx_mul(local, self.w[o][i]));
            }
            dout.push(acc);
        }
        let omr = fx_sub(SCALE, relaxation);
        let ghost target = layer_upd(l0, relaxation, d);
        let mut new_gw: Vec<Vec<i64>> = Vec::new();
        let mut new_gb: Vec<i64> = Vec::new();
        for o in 0..n_out
            invariant
                n_out == self.no,
                n_in == self.ni,
                self.lm() == l0,
                layer_wf(l0),
                d.len() == l0.no,
                d == delta@,
                omr == crate::fx::fxs_sub(SCALE, relaxation),
                target == layer_upd(l0, relaxation, d),
                new_gw@.len() == o,
                new_gb@.len() == o,
                forall|k: int| 0 <= k < o ==> (#[trigger] new_gw@[k])@ == target.gw[k],
                forall|k: int| 0 <= k < o ==> (#[trigger] new_gb@[k]) == target.gb[k],
        {
            let local = fx_mul(delta[o], self.act.derivative(self.cpre[o]));
            proof {
                assert(self.cpre@[o as int] == l0.cpre[o as int]);
                assert(local == loc_delta(l0, d, o as int));
            }
            let mut rowg: Vec<i64> = Vec::new();
            for i in 0..n_in
                invariant
                    n_out == self.no,
                    n_in == self.ni,
                    o < n_out,
                    self.lm() == l0,
                    layer_wf(l0),
                    d.len() == l0.no,
                    d == delta@,
                    omr == crate::fx::fxs_sub(SCALE, relaxation),
                    local == loc_delta(l0, d, o as int),
                    rowg@.len() == i,
                    forall|k: int| 0 <= k < i ==> (#[trigger] rowg@[k]) == crate::fx::fxs_add(
                        crate::fx::fxs_mul(crate::fx::fxs_sub(SCALE, relaxation), l0.gw[o as int][k]),
                        crate::fx::fxs_mul(
                            relaxation,
                            crate::fx::fxs_mul(loc_delta(l0, d, o as int), l0.cin[k]),
                        ),
                    ),
            {
                proof {
                    assert(self.gw@[o as int]@ == l0.gw[o as int]);
                    assert(self.cin@[i as int] == l0.cin[i as int]);
                }
                rowg.push(
                    fx_add(
                        fx_mul(omr, self.gw[o][i]),
                        fx_mul(relaxation, fx_mul(local, self.cin[i])),
                    ),
                );
            }
            proof {
                assert(rowg@ =~= target.gw[o as int]);
            }
            new_gw.push(rowg);
            proof {
                assert(self.gb@[o as int] == l0.gb[o as int]);
            }
            new_gb.push(fx_add(fx_mul(omr, self.gb[o]), fx_mul(relaxation, local)));
        }
        self.gw = new_gw;
        self.gb = new_gb;
        proof {
            assert(self.lm().gw =~= target.gw);
            assert(self.lm().gb =~= target.gb);
            assert(self.lm() == target);
            lemma_singleton_ops(l0, d, relaxation, d, 0, 0, l0);
            assert(self.model() =~= seq![self.lm()]);
            assert(old(self).model() =~= seq![l0]);
            assert(dout@ =~= layer_dout(l0, d));
            crate::model::lemma_upd_props(seq![l0], relaxation, d);
        }
        dout
    }
}

impl Gradient for Layer {
    fn reset_gradient(&mut self) {
        let ghost l0 = self.lm();
        proof {
            assert(old(self).model()[0] == l0);
            assert(layer_wf(l0));
        }
        let mut gw: Vec<Vec<i64>> = Vec::new();
        let n_out = self.no;
        let n_in = self.ni;
        for o in 0..n_out
            invariant
                n_in >= 1,
                gw@.len() == o,
                forall|k: int| 0 <= k < o ==> (#[trigger] gw@[k])@ == Seq::new(
                    n_in as nat,
                    |i: int| 0i64,
                ),
        {
            gw.push(zeros(n_in));
        }
        self.gw = gw;
        self.gb = zeros(n_out);
        proof {
            assert(self.lm().gw =~~= reset_layer(l0).gw);
            assert(self.lm().gb =~= reset_layer(l0).gb);
            assert(self.lm() == reset_layer(l0));
            lemma_singleton_ops(l0, Seq::empty(), SCALE, Seq::empty(), 0, 0, l0);
            assert(self.model() =~= seq![self.lm()]);
            assert(old(self).model() =~= seq![l0]);
            crate::model::lemma_elementwise_props(seq![l0], 0, 0, seq![l0]);
        }
    }

    fn apply_gradient(&mut self, alpha: i64) {
        let ghost l0 = self.lm();
        let ghost target = apply_layer(l0, alpha);
        proof {
            assert(old(self).model()[0] == l0);
            assert(layer_wf(l0));
        }
        let n_out = self.no;
        let n_in = self.ni;
        let mut w: Vec<Vec<i64>> = Vec::new();
        let mut b: Vec<i64> = Vec::new();
        for o in 0..n_out
            invariant
                n_out == self.no,
                n_in == self.ni,
                self.lm() == l0,
                layer_wf(l0),
                target == apply_layer(l0, alpha),
                w@.len() == o,
                b@.len() == o,
                forall|k: int| 0 <= k < o ==> (#[trigger] w@[k])@ == target.w[k],
                forall|k: int| 0 <= k < o ==> (#[trigger] b@[k]) == target.b[k],
        {
            let mut row: Vec<i64> = Vec::new();
            for i in 0..n_in
                invariant
                    n_out == self.no,
                    n_in == self.ni,
                    o < n_out,
                    self.lm() == l0,
                    layer_wf(l0),
                    row@.len() == i,
                    forall|k: int| 0 <= k < i ==> (#[trigger] row@[k]) == crate::fx::fxs_add(
                        l0.w[o as int][k],
                        crate::fx::fxs_mul(alpha, l0.gw[o as int][k]),
                    ),
            {
                proof {
                    assert(self.w@[o as int]@ == l0.w[o as int]);
                    assert(self.gw@[o as int]@ == l0.gw[o as int]);
                }
                row.push(fx_add(self.w[o][i], fx_mul(alpha, self.gw[o][i])));
            }
            proof {
                assert(row@ =~= target.w[o as int]);
            }
            w.push(row);
            proof {
                assert(self.b@[o as int] == l0.b[o as int]);
                assert(self.gb@[o as int] == l0.gb[o as int]);
            }
            b.push(fx_add(self.b[o], fx_mul(alpha, self.gb[o])));
        }
        self.w = w;
        self.b = b;
        proof {
            assert(self.lm().w =~= target.w);
            assert(self.lm().b =~= target.b);
            assert(self.lm() == target);
            lemma_singleton_ops(l0, Seq::empty(), SCALE, Seq::empty(), alpha, 0, l0);
            assert(self.model() =~= seq![self.lm()]);
            assert(old(self).model() =~= seq![l0]);
            crate::model::lemma_elementwise_props(seq![l0], alpha, 0, seq![l0]);
        }
    }

    fn rescale_gradient(&mut self, a: i64) {
        let ghost l0 = self.lm();
        let ghost target = rescale_layer(l0, a);
        proof {
            assert(old(self).model()[0] == l0);
            assert(layer_wf(l0));
        }
        let n_out = self.no;
        let n_in = self.ni;
        let mut gw: Vec<Vec<i64>> = Vec::new();
        let mut gb: Vec<i64> = Vec::new();
        for o in 0..n_out
            invariant
                n_out == self.no,
                n_in == self.ni,
                self.lm() == l0,
                layer_wf(l0),
                target == rescale_layer(l0, a),
                gw@.len() == o,
                gb@.len() == o,
                forall|k: int| 0 <= k < o ==> (#[trigger] gw@[k])@ == target.gw[k],
                forall|k: int| 0 <= k < o ==> (#[trigger] gb@[k]) == target.gb[k],
        {
            let mut row: Vec<i64> = Vec::new();
            for i in 0..n_in
                invariant
                    n_out == self.no,
                    n_in == self.ni,
                    o < n_out,
                    self.lm() == l0,
                    layer_wf(l0),
                    row@.len() == i,
                    forall|k: int| 0 <= k < i ==> (#[trigger] row@[k]) == crate::fx::fxs_mul(
                        l0.gw[o as int][k],
                        a,
                    ),
            {
                proof {
                    assert(self.gw@[o as int]@ == l0.gw[o as int]);
                }
                row.push(fx_mul(self.gw[o][i], a));
            }
            proof {
                assert(row@ =~= target.gw[o as int]);
            }
            gw.push(row);
            proof {
                assert(self.gb@[o as int] == l0.gb[o as int]);
            }
            gb.push(fx_mul(self.gb[o], a));
        }
        self.gw = gw;
        self.gb = gb;
        proof {
            assert(self.lm().gw =~= target.gw);
            assert(self.lm().gb =~= target.gb);
            assert(self.lm() == target);
            lemma_singleton_ops(l0, Seq::empty(), SCALE, Seq::empty(), 0, a, l0);
            assert(self.model() =~= seq![self.lm()]);
            assert(old(self).model() =~= seq![l0]);
            crate::model::lemma_elementwise_props(seq![l0], 0, a, seq![l0]);
        }
    }

    fn norm2_gradient(&self) -> (n: i64) {
        let ghost l0 = self.lm();
        proof {
            assert(self.model()[0] == l0);
            assert(layer_wf(l0));
        }
        let n_out = self.no;
        let n_in = self.ni;
        let mut acc: i64 = 0;
        for o in 0..n_out
            invariant
                n_out == self.no,
                n_in == self.ni,
                self.lm() == l0,
                layer_wf(l0),
                acc == layer_norm2_upto(l0, o as nat),
        {
            let ghost base = acc;
            for i in 0..n_in
                invariant
                    n_out == self.no,
                    n_in == self.ni,
                    o < n_out,
                    self.lm() == l0,
                    layer_wf(l0),
                    acc == row_norm2_from(base, l0.gw[o as int], i as nat),
            {
                proof {
                    assert(self.gw@[o as int]@ == l0.gw[o as int]);
                }
                let g = self.gw[o][i];
                acc = fx_add(acc, fx_mul(g, g));
            }
            proof {
                assert(self.gb@[o as int] == l0.gb[o as int]);
            }
            let gb = self.gb[o];
            acc = fx_add(acc, fx_mul(gb, gb));
        }
        proof {
            lemma_singleton_ops(l0, Seq::empty(), SCALE, Seq::empty(), 0, 0, l0);
            assert(self.model() =~= seq![l0]);
            lemma_chain_norm2_nonneg(self.model());
        }
        acc
    }

    fn add_gradient(&mut self, rhs: &Self) {
        let ghost l0 = self.lm();
        let ghost r0 = rhs.lm();
        let ghost target = crate::model::add_layer(l0, r0);
        proof {
            assert(old(self).model()[0] == l0);
            assert(rhs.model()[0] == r0);
            assert(layer_wf(l0));
            assert(layer_wf(r0));
            assert(r0.ni == l0.ni && r0.no == l0.no);
        }
        let n_out = self.no;
        let n_in = self.ni;
        let mut gw: Vec<Vec<i64>> = Vec::new();
        let mut gb: Vec<i64> = Vec::new();
        for o in 0..n_out
            invariant
                n_out == self.no,
                n_in == self.ni,
                self.lm() == l0,
                rhs.lm() == r0,
                layer_wf(l0),
                layer_wf(r0),
                r0.ni == l0.ni && r0.no == l0.no,
                target == crate::model::add_layer(l0, r0),
                gw@.len() == o,
                gb@.len() == o,
                forall|k: int| 0 <= k < o ==> (#[trigger] gw@[k])@ == target.gw[k],
                forall|k: int| 0 <= k < o ==> (#[trigger] gb@[k]) == target.gb[k],
        {
            let mut row: Vec<i64> = Vec::new();
            for i in 0..n_in
                invariant
                    n_out == self.no,
                    n_in == self.ni,
                    o < n_out,
                    self.lm() == l0,
                    rhs.lm() == r0,
                    layer_wf(l0),
                    layer_wf(r0),
                    r0.ni == l0.ni && r0.no == l0.no,
                    row@.len() == i,
                    forall|k: int| 0 <= k < i ==> (#[trigger] row@[k]) == crate::fx::fxs_add(
                        l0.gw[o as int][k],
                        r0.gw[o as int][k],
                    ),
            {
                proof {
                    assert(self.gw@[o as int]@ == l0.gw[o as int]);
                    assert(rhs.gw@[o as int]@ == r0.gw[o as int]);
                }
                row.push(fx_add(self.gw[o][i], rhs.gw[o][i]));
            }
            proof {
                assert(row@ =~= target.gw[o as int]);
            }
            gw.push(row);
            proof {
                assert(self.gb@[o as int] == l0.gb[o as int]);
                assert(rhs.gb@[o as int] == r0.gb[o as int]);
            }
            gb.push(fx_add(self.gb[o], rhs.gb[o]));
        }
        self.gw = gw;
        self.gb = gb;
        proof {
            assert(self.lm().gw =~= target.gw);
            assert(self.lm().gb =~= target.gb);
            assert(self.lm() == target);
            lemma_singleton_ops(l0, Seq::empty(), SCALE, Seq::empty(), 0, 0, r0);
            assert(self.model() =~= seq![self.lm()]);
            assert(old(self).model() =~= seq![l0]);
            assert(rhs.model() =~= seq![r0]);
            assert(add_models(seq![l0], seq![r0])[0] == target);
            assert(self.model() =~= add_models(old(self).model(), rhs.model()));
            crate::model::lemma_elementwise_props(seq![l0], 0, 0, seq![r0]);
        }
    }

    fn normalize_gradient(&mut self) {
        let ghost l0 = self.lm();
        let n2 = self.norm2_gradient();
        if n2 > 0 {
            let rt = fx_sqrt(n2);
            let s = fx_div(SCALE, rt);
            self.rescale_gradient(s);
            proof {
                assert(final(self).model() == normalized(old(self).model()));
            }
        } else {
            proof {
                assert(chain_norm2(old(self).model()) <= 0);
            }
        }
    }
}

impl Layer {
    /// A layer with the given weight matrix and bias (gradients and caches
    /// zero), for building a network in a known state.
    pub fn with_params(ni: usize, no: usize, act: Act, w: Vec<Vec<i64>>, b: Vec<i64>) -> (l: Layer)
        requires
            1 <= ni <= 1024,
            1 <= no <= 1024,
            w@.len() == no,
            forall|o: int| 0 <= o < no ==> (#[trigger] w@[o])@.len() == ni,
            b@.len() == no,
        ensures
            chain_wf(l.model()),
            l.model() == seq![l.lm()],
            l.lm().ni == ni,
            l.lm().no == no,
            l.lm().act == act,
            l.lm().w == mat_view(w),
            l.lm().b == b@,
            l.lm().gw == Seq::new(no as nat, |o: int| Seq::new(ni as nat, |i: int| 0i64)),
            l.lm().gb == Seq::new(no as nat, |o: int| 0i64),
            l.lm().cin == Seq::new(ni as nat, |i: int| 0i64),
            l.lm().cpre == Seq::new(no as nat, |o: int| 0i64),
    {
        let mut base = Layer::new(ni, no, act);
        base.w = w;
        base.b = b;
        proof {
            assert(layer_wf(base.lm()));
            assert(base.model() =~= seq![base.lm()]);
        }
        base
    }

    /// The weight feeding output unit `o` from input unit `i`.
    pub fn weight_at(&self, o: usize, i: usize) -> (r: i64)
        requires
            o < self.lm().w.len(),
            i < self.lm().w[o as int].len(),
        ensures
            r == self.lm().w[o as int][i as int],
    {
        self.w[o][i]
    }

    /// The bias of output unit `o`.
    pub fn bias_at(&self, o: usize) -> (r: i64)
        requires
            o < self.lm().b.len(),
        ensures
            r == self.lm().b[o as int],
    {
        self.b[o]
    }

    /// The accumulated weight gradient at `(o, i)`.
    pub fn grad_at(&self, o: usize, i: usize) -> (r: i64)
        requires
            o < self.lm().gw.len(),
            i < self.lm().gw[o as int].len(),
        ensures
            r == self.lm().gw[o as int][i as int],
    {
        self.gw[o][i]
    }

    /// The accumulated bias gradient of output unit `o`.
    pub fn grad_bias_at(&self, o: usize) -> (r: i64)
        requires
            o < self.lm().gb.len(),
        ensures
            r == self.lm().gb[o as int],
    {
        self.gb[o]
    }
}

} // verus!
