//! The mathematical model of a network.
//!
//! A network is modelled as a flat sequence of [`LayerModel`]s, the layers in
//! forward order.  Every executable operation on layers and networks is
//! specified against the recursive functions here, so that a chain of layers
//! computes exactly the composition of its parts, independently of how the
//! chain was associated.

use vstd::prelude::*;
use crate::activation::{spec_apply, spec_derivative, Act};
use crate::fx::{fxs_add, fxs_div, fxs_mul, fxs_sqrt, fxs_sub, tdiv, MAX_FX, SCALE};

verus! {

/// One affine layer with its activation, gradient accumulator and the caches
/// of the last forward pass.
pub ghost struct LayerModel {
    /// Input width.
    pub ni: nat,
    /// Output width.
    pub no: nat,
    /// The activation applied per output unit.
    pub act: Act,
    /// Weight matrix, `no` rows of `ni` values.
    pub w: Seq<Seq<i64>>,
    /// Bias, one value per output unit.
    pub b: Seq<i64>,
    /// Accumulated weight gradient, same shape as `w`.
    pub gw: Seq<Seq<i64>>,
    /// Accumulated bias gradient, same shape as `b`.
    pub gb: Seq<i64>,
    /// Input cached by the last forward pass.
    pub cin: Seq<i64>,
    /// Pre-activation values cached by the last forward pass.
    pub cpre: Seq<i64>,
}

/// Well-formedness of one layer: positive bounded widths and matching shapes.
pub open spec fn layer_wf(l: LayerModel) -> bool {
    &&& 0 < l.ni <= 1024
    &&& 0 < l.no <= 1024
    &&& l.w.len() == l.no
    &&& forall|o: int| 0 <= o < l.no ==> (#[trigger] l.w[o]).len() == l.ni
    &&& l.b.len() == l.no
    &&& l.gw.len() == l.no
    &&& forall|o: int| 0 <= o < l.no ==> (#[trigger] l.gw[o]).len() == l.ni
    &&& l.gb.len() == l.no
    &&& l.cin.len() == l.ni
    &&& l.cpre.len() == l.no
}

/// Well-formedness of a chain: nonempty, every layer well formed, and each
/// layer's output width feeding the next layer's input width.
pub open spec fn chain_wf(m: Seq<LayerModel>) -> bool {
    &&& 0 < m.len() <= 1024
    &&& forall|i: int| 0 <= i < m.len() ==> layer_wf(#[trigger] m[i])
    &&& forall|i: int| #![trigger m[i], m[i + 1]] 0 <= i && i + 1 < m.len() ==> m[i].no == m[i + 1].ni
}

/// Two chains with the same length, widths and activations.
pub open spec fn same_shape(m1: Seq<LayerModel>, m2: Seq<LayerModel>) -> bool {
    &&& m1.len() == m2.len()
    &&& forall|i: int| 0 <= i < m1.len() ==> (#[trigger] m1[i]).ni == m2[i].ni
    &&& forall|i: int| 0 <= i < m1.len() ==> (#[trigger] m1[i]).no == m2[i].no
    &&& forall|i: int| 0 <= i < m1.len() ==> (#[trigger] m1[i]).act == m2[i].act
}

// ---------------------------------------------------------------- forward --

/// The affine accumulation `b + sum_{k < n} w[k] * x[k]`, folded left in
/// index order with saturating fixed-point operations.
pub open spec fn dot_acc(ws: Seq<i64>, xs: Seq<i64>, b: i64, n: nat) -> i64
    decreases n,
{
    if n == 0 {
        b
    } else {
        fxs_add(dot_acc(ws, xs, b, (n - 1) as nat), fxs_mul(ws[n - 1], xs[n - 1]))
    }
}

/// Pre-activation of output unit `o`.
pub open spec fn layer_pre(l: LayerModel, x: Seq<i64>, o: int) -> i64 {
    dot_acc(l.w[o], x, l.b[o], l.ni)
}

/// All pre-activations of one layer.
pub open spec fn layer_pre_seq(l: LayerModel, x: Seq<i64>) -> Seq<i64> {
    Seq::new(l.no, |o: int| layer_pre(l, x, o))
}

/// The output of one layer on input `x`.
pub open spec fn layer_out(l: LayerModel, x: Seq<i64>) -> Seq<i64> {
    Seq::new(l.no, |o: int| spec_apply(l.act, layer_pre(l, x, o)))
}

/// The layer after a forward pass: caches overwritten, all else unchanged.
pub open spec fn layer_fwd(l: LayerModel, x: Seq<i64>) -> LayerModel {
    LayerModel {
        ni: l.ni,
        no: l.no,
        act: l.act,
        w: l.w,
        b: l.b,
        gw: l.gw,
        gb: l.gb,
        cin: x,
        cpre: layer_pre_seq(l, x),
    }
}

/// The output of a chain on input `x`: each layer feeds the next.
pub open spec fn fwd_out(m: Seq<LayerModel>, x: Seq<i64>) -> Seq<i64>
    decreases m.len(),
{
    if m.len() == 0 {
        x
    } else {
        fwd_out(m.subrange(1, m.len() as int), layer_out(m[0], x))
    }
}

/// The chain after a forward pass on input `x`.
pub open spec fn fwd_models(m: Seq<LayerModel>, x: Seq<i64>) -> Seq<LayerModel>
    decreases m.len(),
{
    if m.len() == 0 {
        m
    } else {
        seq![layer_fwd(m[0], x)] + fwd_models(m.subrange(1, m.len() as int), layer_out(m[0], x))
    }
}

// --------------------------------------------------------------- backward --

/// The local delta of output unit `o`: the incoming delta times the
/// activation derivative at the cached pre-activation.
pub open spec fn loc_delta(l: LayerModel, d: Seq<i64>, o: int) -> i64 {
    fxs_mul(d[o], spec_derivative(l.act, l.cpre[o]))
}

/// The layer after one gradient update with relaxation `r`: each gradient
/// entry blends its old value (weight `1 - r`) with the new local
/// contribution (weight `r`).
pub open spec fn layer_upd(l: LayerModel, r: i64, d: Seq<i64>) -> LayerModel {
    LayerModel {
        ni: l.ni,
        no: l.no,
        act: l.act,
        w: l.w,
        b: l.b,
        gw: Seq::new(
            l.gw.len(),
            |o: int|
                Seq::new(
                    l.gw[o].len(),
                    |i: int|
                        fxs_add(
                            fxs_mul(fxs_sub(SCALE, r), l.gw[o][i]),
                            fxs_mul(r, fxs_mul(loc_delta(l, d, o), l.cin[i])),
                        ),
                ),
        ),
        gb: Seq::new(
            l.gb.len(),
            |o: int|
                fxs_add(fxs_mul(fxs_sub(SCALE, r), l.gb[o]), fxs_mul(r, loc_delta(l, d, o))),
        ),
        cin: l.cin,
        cpre: l.cpre,
    }
}

/// The delta handed back to the preceding layer, accumulated over the first
/// `n` output units in index order.
pub open spec fn dout_acc(l: LayerModel, d: Seq<i64>, i: int, n: nat) -> i64
    decreases n,
{
    if n == 0 {
        0
    } else {
        fxs_add(
            dout_acc(l, d, i, (n - 1) as nat),
            fxs_mul(loc_delta(l, d, n - 1), l.w[n - 1][i]),
        )
    }
}

/// The full backpropagated delta of one layer.
pub open spec fn layer_dout(l: LayerModel, d: Seq<i64>) -> Seq<i64> {
    Seq::new(l.ni, |i: int| dout_acc(l, d, i, l.no))
}

/// The delta that comes out at the front of a chain whose output received
/// delta `d`: the update walks the chain back to front.
pub open spec fn upd_dout(m: Seq<LayerModel>, r: i64, d: Seq<i64>) -> Seq<i64>
    decreases m.len(),
{
    if m.len() == 0 {
        d
    } else {
        layer_dout(m[0], upd_dout(m.subrange(1, m.len() as int), r, d))
    }
}

/// The chain after one gradient update with output delta `d`.
pub open spec fn upd_models(m: Seq<LayerModel>, r: i64, d: Seq<i64>) -> Seq<LayerModel>
    decreases m.len(),
{
    if m.len() == 0 {
        m
    } else {
        let rest = m.subrange(1, m.len() as int);
        seq![layer_upd(m[0], r, upd_dout(rest, r, d))] + upd_models(rest, r, d)
    }
}

// ------------------------------------------------------ element-wise ops --

/// The layer with a zeroed gradient accumulator.
pub open spec fn reset_layer(l: LayerModel) -> LayerModel {
    LayerModel {
        ni: l.ni,
        no: l.no,
        act: l.act,
        w: l.w,
        b: l.b,
        gw: Seq::new(l.gw.len(), |o: int| Seq::new(l.gw[o].len(), |i: int| 0i64)),
        gb: Seq::new(l.gb.len(), |o: int| 0i64),
        cin: l.cin,
        cpre: l.cpre,
    }
}

pub open spec fn reset_models(m: Seq<LayerModel>) -> Seq<LayerModel> {
    Seq::new(m.len(), |i: int| reset_layer(m[i]))
}

/// The layer after one gradient step: `w += alpha * gw`, `b += alpha * gb`.
pub open spec fn apply_layer(l: LayerModel, alpha: i64) -> LayerModel {
    LayerModel {
        ni: l.ni,
        no: l.no,
        act: l.act,
        w: Seq::new(
            l.w.len(),
            |o: int|
                Seq::new(l.w[o].len(), |i: int| fxs_add(l.w[o][i], fxs_mul(alpha, l.gw[o][i]))),
        ),
        b: Seq::new(l.b.len(), |o: int| fxs_add(l.b[o], fxs_mul(alpha, l.gb[o]))),
        gw: l.gw,
        gb: l.gb,
        cin: l.cin,
        cpre: l.cpre,
    }
}

pub open spec fn apply_models(m: Seq<LayerModel>, alpha: i64) -> Seq<LayerModel> {
    Seq::new(m.len(), |i: int| apply_layer(m[i], alpha))
}

/// The layer with its gradient rescaled by the factor `a`.
pub open spec fn rescale_layer(l: LayerModel, a: i64) -> LayerModel {
    LayerModel {
        ni: l.ni,
        no: l.no,
        act: l.act,
        w: l.w,
        b: l.b,
        gw: Seq::new(l.gw.len(), |o: int| Seq::new(l.gw[o].len(), |i: int| fxs_mul(l.gw[o][i], a))),
        gb: Seq::new(l.gb.len(), |o: int| fxs_mul(l.gb[o], a)),
        cin: l.cin,
        cpre: l.cpre,
    }
}

pub open spec fn rescale_models(m: Seq<LayerModel>, a: i64) -> Seq<LayerModel> {
    Seq::new(m.len(), |i: int| rescale_layer(m[i], a))
}

/// The layer with the other layer's gradient added element-wise.
pub open spec fn add_layer(l: LayerModel, rhs: LayerModel) -> LayerModel {
    LayerModel {
        ni: l.ni,
        no: l.no,
        act: l.act,
        w: l.w,
        b: l.b,
        gw: Seq::new(l.gw.len(), |o: int| Seq::new(l.gw[o].len(), |i: int| fxs_add(l.gw[o][i], rhs.gw[o][i]))),
        gb: Seq::new(l.gb.len(), |o: int| fxs_add(l.gb[o], rhs.gb[o])),
        cin: l.cin,
        cpre: l.cpre,
    }
}

pub open spec fn add_models(m: Seq<LayerModel>, rhs: Seq<LayerModel>) -> Seq<LayerModel> {
    Seq::new(m.len(), |i: int| add_layer(m[i], rhs[i]))
}

// ------------------------------------------------------------------ norms --

/// Squared gradient entries of one row folded onto an accumulator.
pub open spec fn row_norm2_from(acc: i64, row: Seq<i64>, n: nat) -> i64
    decreases n,
{
    if n == 0 {
        acc
    } else {
        fxs_add(row_norm2_from(acc, row, (n - 1) as nat), fxs_mul(row[n - 1], row[n - 1]))
    }
}

/// Squared sum of the gradient accumulator over the first `o` output units,
/// bias gradient included.
pub open spec fn layer_norm2_upto(l: LayerModel, o: nat) -> i64
    decreases o,
{
    if o == 0 {
        0
    } else {
        fxs_add(
            row_norm2_from(layer_norm2_upto(l, (o - 1) as nat), l.gw[o - 1], l.ni),
            fxs_mul(l.gb[o - 1], l.gb[o - 1]),
        )
    }
}

/// Squared sum of one layer's gradient accumulator.
pub open spec fn layer_norm2(l: LayerModel) -> i64 {
    layer_norm2_upto(l, l.no)
}

/// Squared sum of a chain's gradient accumulator.
pub open spec fn chain_norm2(m: Seq<LayerModel>) -> i64
    decreases m.len(),
{
    if m.len() == 0 {
        0
    } else {
        fxs_add(layer_norm2(m[0]), chain_norm2(m.subrange(1, m.len() as int)))
    }
}

/// The chain with its gradient rescaled to unit norm; a zero gradient stays
/// unchanged, since it has no direction.
pub open spec fn normalized(m: Seq<LayerModel>) -> Seq<LayerModel> {
    if chain_norm2(m) <= 0 {
        m
    } else {
        rescale_models(m, fxs_div(SCALE, fxs_sqrt(chain_norm2(m))))
    }
}

/// Number of weight and bias entries of a chain.
pub open spec fn chain_param_count(m: Seq<LayerModel>) -> int
    decreases m.len(),
{
    if m.len() == 0 {
        0
    } else {
        (m[0].ni + 1) * m[0].no + chain_param_count(m.subrange(1, m.len() as int))
    }
}

/// A chain whose gradient accumulator is exactly zero.
pub open spec fn grad_is_zero(m: Seq<LayerModel>) -> bool {
    &&& forall|i: int, o: int, k: int|
        0 <= i < m.len() && 0 <= o < m[i].gw.len() && 0 <= k < m[i].gw[o].len()
            ==> #[trigger] m[i].gw[o][k] == 0
    &&& forall|i: int, o: int|
        0 <= i < m.len() && 0 <= o < m[i].gb.len() ==> #[trigger] m[i].gb[o] == 0
}

// ----------------------------------------------------------------- lemmas --

/// A chain built from two well-formed pieces that plug into one another is
/// well formed, and conversely.
#[verifier::rlimit(100)]
pub proof fn lemma_chain_wf_split(m1: Seq<LayerModel>, m2: Seq<LayerModel>)
    requires
        chain_wf(m1 + m2),
        0 < m1.len(),
        0 < m2.len(),
    ensures
        chain_wf(m1),
        chain_wf(m2),
        m1.last().no == m2[0].ni,
{
    let m = m1 + m2;
    assert forall|i: int| 0 <= i < m1.len() implies layer_wf(#[trigger] m1[i]) by {
        assert(m1[i] == m[i]);
    }
    assert forall|i: int| 0 <= i < m2.len() implies layer_wf(#[trigger] m2[i]) by {
        assert(m2[i] == m[m1.len() + i]);
    }
    assert forall|i: int| #![trigger m1[i], m1[i + 1]] 0 <= i && i + 1 < m1.len() ==> m1[i].no == m1[i + 1].ni by {
        if 0 <= i && i + 1 < m1.len() {
            assert(m1[i] == m[i]);
            assert(m1[i + 1] == m[i + 1]);
            assert(m[i].no == m[i + 1].ni);
        }
    }
    assert forall|i: int| #![trigger m2[i], m2[i + 1]] 0 <= i && i + 1 < m2.len() ==> m2[i].no == m2[i + 1].ni by {
        if 0 <= i && i + 1 < m2.len() {
            let j = m1.len() + i;
            assert(m2[i] == m[j]);
            assert(m2[i + 1] == m[j + 1]);
            assert(m[j].no == m[j + 1].ni);
        }
    }
    let j = m1.len() - 1;
    assert(m1.last() == m[j]);
    assert(m2[0] == m[j + 1]);
    assert(m[j].no == m[j + 1].ni);
}

/// The other direction: gluing well-formed chains gives a well-formed chain.
pub proof fn lemma_chain_wf_join(m1: Seq<LayerModel>, m2: Seq<LayerModel>)
    requires
        chain_wf(m1),
        chain_wf(m2),
        m1.last().no == m2[0].ni,
        m1.len() + m2.len() <= 1024,
    ensures
        chain_wf(m1 + m2),
{
    let m = m1 + m2;
    assert forall|i: int| 0 <= i < m.len() implies layer_wf(#[trigger] m[i]) by {
        if i < m1.len() {
            assert(m[i] == m1[i]);
        } else {
            assert(m[i] == m2[i - m1.len()]);
        }
    }
    assert forall|i: int| #![trigger m[i], m[i + 1]] 0 <= i && i + 1 < m.len() ==> m[i].no == m[i + 1].ni by {
        if 0 <= i && i + 1 < m.len() {
            if i + 1 < m1.len() {
                assert(m[i] == m1[i]);
                assert(m[i + 1] == m1[i + 1]);
                assert(m1[i].no == m1[i + 1].ni);
            } else if i + 1 == m1.len() {
                assert(m[i] == m1[i]);
                assert(m1[i] == m1.last());
                assert(m[i + 1] == m2[0]);
            } else {
                let j = i - m1.len();
                assert(m[i] == m2[j]);
                assert(m[i + 1] == m2[j + 1]);
                assert(m2[j].no == m2[j + 1].ni);
            }
        }
    }
}

/// A chain of the same shape as a well-formed chain, with well-formed
/// layers, is itself well formed.
pub proof fn lemma_wf_from_shape(m: Seq<LayerModel>, f: Seq<LayerModel>)
    requires
        chain_wf(m),
        same_shape(f, m),
        forall|i: int| 0 <= i < f.len() ==> layer_wf(#[trigger] f[i]),
    ensures
        chain_wf(f),
{
    assert forall|i: int| #![trigger f[i], f[i + 1]] 0 <= i && i + 1 < f.len() ==> f[i].no == f[i + 1].ni by {
        if 0 <= i && i + 1 < f.len() {
            assert(m[i].no == m[i + 1].ni);
            assert(f[i].no == m[i].no);
            assert(f[i + 1].ni == m[i + 1].ni);
        }
    }
}

/// Forward propagation distributes over concatenation.
pub proof fn lemma_fwd_concat(m1: Seq<LayerModel>, m2: Seq<LayerModel>, x: Seq<i64>)
    ensures
        fwd_out(m1 + m2, x) == fwd_out(m2, fwd_out(m1, x)),
        fwd_models(m1 + m2, x) == fwd_models(m1, x) + fwd_models(m2, fwd_out(m1, x)),
    decreases m1.len(),
{
    if m1.len() == 0 {
        assert(m1 + m2 =~= m2);
        assert(fwd_models(m1, x) + fwd_models(m2, x) =~= fwd_models(m2, x));
    } else {
        let rest = m1.subrange(1, m1.len() as int);
        let y = layer_out(m1[0], x);
        assert((m1 + m2).subrange(1, (m1 + m2).len() as int) =~= rest + m2);
        assert((m1 + m2)[0] == m1[0]);
        lemma_fwd_concat(rest, m2, y);
        assert(seq![layer_fwd(m1[0], x)] + (fwd_models(rest, y) + fwd_models(
            m2,
            fwd_out(rest, y),
        )) =~= (seq![layer_fwd(m1[0], x)] + fwd_models(rest, y)) + fwd_models(
            m2,
            fwd_out(rest, y),
        ));
    }
}

/// Gradient update distributes over concatenation.
pub proof fn lemma_upd_concat(m1: Seq<LayerModel>, m2: Seq<LayerModel>, r: i64, d: Seq<i64>)
    ensures
        upd_dout(m1 + m2, r, d) == upd_dout(m1, r, upd_dout(m2, r, d)),
        upd_models(m1 + m2, r, d) == upd_models(m1, r, upd_dout(m2, r, d)) + upd_models(m2, r, d),
    decreases m1.len(),
{
    if m1.len() == 0 {
        assert(m1 + m2 =~= m2);
        assert(upd_models(m1, r, upd_dout(m2, r, d)) + upd_models(m2, r, d) =~= upd_models(
            m2,
            r,
            d,
        ));
    } else {
        let rest = m1.subrange(1, m1.len() as int);
        let dd = upd_dout(m2, r, d);
        assert((m1 + m2).subrange(1, (m1 + m2).len() as int) =~= rest + m2);
        assert((m1 + m2)[0] == m1[0]);
        lemma_upd_concat(rest, m2, r, d);
        assert(seq![layer_upd(m1[0], r, upd_dout(rest, r, dd))] + (upd_models(rest, r, dd)
            + upd_models(m2, r, d)) =~= (seq![layer_upd(m1[0], r, upd_dout(rest, r, dd))]
            + upd_models(rest, r, dd)) + upd_models(m2, r, d));
    }
}

/// Gradient reset distributes over concatenation.
pub proof fn lemma_reset_concat(m1: Seq<LayerModel>, m2: Seq<LayerModel>)
    ensures
        reset_models(m1 + m2) == reset_models(m1) + reset_models(m2),
{
    let lhs = reset_models(m1 + m2);
    let rhs = reset_models(m1) + reset_models(m2);
    assert forall|i: int| 0 <= i < lhs.len() implies lhs[i] == rhs[i] by {
        if i < m1.len() {
            assert((m1 + m2)[i] == m1[i]);
        } else {
            assert((m1 + m2)[i] == m2[i - m1.len()]);
        }
    }
    assert(lhs =~= rhs);
}

/// A gradient step distributes over concatenation.
pub proof fn lemma_apply_concat(m1: Seq<LayerModel>, m2: Seq<LayerModel>, alpha: i64)
    ensures
        apply_models(m1 + m2, alpha) == apply_models(m1, alpha) + apply_models(m2, alpha),
{
    let lhs = apply_models(m1 + m2, alpha);
    let rhs = apply_models(m1, alpha) + apply_models(m2, alpha);
    assert forall|i: int| 0 <= i < lhs.len() implies lhs[i] == rhs[i] by {
        if i < m1.len() {
            assert((m1 + m2)[i] == m1[i]);
        } else {
            assert((m1 + m2)[i] == m2[i - m1.len()]);
        }
    }
    assert(lhs =~= rhs);
}

/// Gradient rescaling distributes over concatenation.
pub proof fn lemma_rescale_concat(m1: Seq<LayerModel>, m2: Seq<LayerModel>, a: i64)
    ensures
        rescale_models(m1 + m2, a) == rescale_models(m1, a) + rescale_models(m2, a),
{
    let lhs = rescale_models(m1 + m2, a);
    let rhs = rescale_models(m1, a) + rescale_models(m2, a);
    assert forall|i: int| 0 <= i < lhs.len() implies lhs[i] == rhs[i] by {
        if i < m1.len() {
            assert((m1 + m2)[i] == m1[i]);
        } else {
            assert((m1 + m2)[i] == m2[i - m1.len()]);
        }
    }
    assert(lhs =~= rhs);
}

/// Gradient addition distributes over concatenation of equal-length parts.
pub proof fn lemma_add_concat(
    m1: Seq<LayerModel>,
    m2: Seq<LayerModel>,
    r1: Seq<LayerModel>,
    r2: Seq<LayerModel>,
)
    requires
        m1.len() == r1.len(),
        m2.len() == r2.len(),
    ensures
        add_models(m1 + m2, r1 + r2) == add_models(m1, r1) + add_models(m2, r2),
{
    let lhs = add_models(m1 + m2, r1 + r2);
    let rhs = add_models(m1, r1) + add_models(m2, r2);
    assert forall|i: int| 0 <= i < lhs.len() implies lhs[i] == rhs[i] by {
        if i < m1.len() {
            assert((m1 + m2)[i] == m1[i]);
            assert((r1 + r2)[i] == r1[i]);
        } else {
            assert((m1 + m2)[i] == m2[i - m1.len()]);
            assert((r1 + r2)[i] == r2[i - m1.len()]);
        }
    }
    assert(lhs =~= rhs);
}

/// Saturating addition of nonnegative values is associative.
pub proof fn lemma_sat_add_assoc_nonneg(a: i64, b: i64, c: i64)
    requires
        a >= 0,
        b >= 0,
        c >= 0,
    ensures
        fxs_add(fxs_add(a, b), c) == fxs_add(a, fxs_add(b, c)),
{
}

/// A fold of squares is nonnegative and never decreases the accumulator.
pub proof fn lemma_row_norm2_nonneg(acc: i64, row: Seq<i64>, n: nat)
    requires
        acc >= 0,
    ensures
        row_norm2_from(acc, row, n) >= 0,
    decreases n,
{
    if n > 0 {
        lemma_row_norm2_nonneg(acc, row, (n - 1) as nat);
        crate::fx::lemma_square_nonneg(row[n - 1]);
    }
}

pub proof fn lemma_layer_norm2_nonneg(l: LayerModel)
    ensures
        layer_norm2(l) >= 0,
{
    lemma_layer_norm2_upto_nonneg(l, l.no);
}

proof fn lemma_layer_norm2_upto_nonneg(l: LayerModel, o: nat)
    ensures
        layer_norm2_upto(l, o) >= 0,
    decreases o,
{
    if o > 0 {
        lemma_layer_norm2_upto_nonneg(l, (o - 1) as nat);
        lemma_row_norm2_nonneg(layer_norm2_upto(l, (o - 1) as nat), l.gw[o - 1], l.ni);
        crate::fx::lemma_square_nonneg(l.gb[o - 1]);
    }
}

pub proof fn lemma_chain_norm2_nonneg(m: Seq<LayerModel>)
    ensures
        chain_norm2(m) >= 0,
    decreases m.len(),
{
    if m.len() > 0 {
        lemma_layer_norm2_nonneg(m[0]);
        lemma_chain_norm2_nonneg(m.subrange(1, m.len() as int));
    }
}

/// The squared gradient sum distributes over concatenation.
pub proof fn lemma_norm2_concat(m1: Seq<LayerModel>, m2: Seq<LayerModel>)
    ensures
        chain_norm2(m1 + m2) == fxs_add(chain_norm2(m1), chain_norm2(m2)),
    decreases m1.len(),
{
    if m1.len() == 0 {
        assert(m1 + m2 =~= m2);
        lemma_chain_norm2_nonneg(m2);
    } else {
        let rest = m1.subrange(1, m1.len() as int);
        assert((m1 + m2).subrange(1, (m1 + m2).len() as int) =~= rest + m2);
        assert((m1 + m2)[0] == m1[0]);
        lemma_norm2_concat(rest, m2);
        lemma_layer_norm2_nonneg(m1[0]);
        lemma_chain_norm2_nonneg(rest);
        lemma_chain_norm2_nonneg(m2);
        lemma_sat_add_assoc_nonneg(layer_norm2(m1[0]), chain_norm2(rest), chain_norm2(m2));
    }
}

/// Parameter counting distributes over concatenation.
pub proof fn lemma_param_count_concat(m1: Seq<LayerModel>, m2: Seq<LayerModel>)
    ensures
        chain_param_count(m1 + m2) == chain_param_count(m1) + chain_param_count(m2),
    decreases m1.len(),
{
    if m1.len() == 0 {
        assert(m1 + m2 =~= m2);
    } else {
        let rest = m1.subrange(1, m1.len() as int);
        assert((m1 + m2).subrange(1, (m1 + m2).len() as int) =~= rest + m2);
        assert((m1 + m2)[0] == m1[0]);
        lemma_param_count_concat(rest, m2);
    }
}

/// Parameter counts of well-formed chains are small enough for a `usize`.
pub proof fn lemma_param_count_bounds(m: Seq<LayerModel>)
    requires
        forall|i: int| 0 <= i < m.len() ==> layer_wf(#[trigger] m[i]),
        m.len() <= 1024,
    ensures
        0 <= chain_param_count(m) <= m.len() * 0x100800,
    decreases m.len(),
{
    if m.len() > 0 {
        let rest = m.subrange(1, m.len() as int);
        assert(forall|i: int| 0 <= i < rest.len() ==> layer_wf(#[trigger] rest[i]));
        lemma_param_count_bounds(rest);
        assert((m[0].ni + 1) * m[0].no <= 0x100800) by (nonlinear_arith)
            requires
                0 < m[0].ni <= 1024,
                0 < m[0].no <= 1024,
        ;
        assert((m[0].ni + 1) * m[0].no >= 0) by (nonlinear_arith);
        assert(m.len() * 0x100800 == rest.len() * 0x100800 + 0x100800) by (nonlinear_arith)
            requires
                rest.len() == m.len() - 1,
        ;
    }
}

/// A layer keeps its well-formedness through each per-layer operation.
pub proof fn lemma_layer_ops_wf(l: LayerModel, x: Seq<i64>, r: i64, d: Seq<i64>, alpha: i64, a: i64, rhs: LayerModel)
    requires
        layer_wf(l),
        x.len() == l.ni,
    ensures
        layer_wf(layer_fwd(l, x)),
        layer_wf(layer_upd(l, r, d)),
        layer_wf(reset_layer(l)),
        layer_wf(apply_layer(l, alpha)),
        layer_wf(rescale_layer(l, a)),
        layer_wf(add_layer(l, rhs)),
        layer_dout(l, d).len() == l.ni,
        layer_out(l, x).len() == l.no,
{
}

/// A forward pass preserves shape, weights and gradients, and its output
/// length is the final layer's width.
#[verifier::rlimit(80)]
pub proof fn lemma_fwd_props(m: Seq<LayerModel>, x: Seq<i64>)
    requires
        chain_wf(m),
        x.len() == m[0].ni,
    ensures
        fwd_out(m, x).len() == m.last().no,
        fwd_models(m, x).len() == m.len(),
        same_shape(fwd_models(m, x), m),
        chain_wf(fwd_models(m, x)),
        forall|i: int| 0 <= i < m.len() ==> (#[trigger] fwd_models(m, x)[i]).w == m[i].w,
        forall|i: int| 0 <= i < m.len() ==> (#[trigger] fwd_models(m, x)[i]).b == m[i].b,
        forall|i: int| 0 <= i < m.len() ==> (#[trigger] fwd_models(m, x)[i]).gw == m[i].gw,
        forall|i: int| 0 <= i < m.len() ==> (#[trigger] fwd_models(m, x)[i]).gb == m[i].gb,
    decreases m.len(),
{
    let rest = m.subrange(1, m.len() as int);
    let y = layer_out(m[0], x);
    let fm = fwd_models(m, x);
    let hf = layer_fwd(m[0], x);
    lemma_layer_ops_wf(m[0], x, SCALE, x, 0, 0, m[0]);
    if m.len() == 1 {
        assert(fm == seq![hf] + fwd_models(rest, y));
        assert(fwd_models(rest, y).len() == 0);
        assert(fm =~= seq![hf]);
        assert(fm[0] == hf);
        assert(m.last() == m[0]);
        assert(fwd_out(rest, y) == y);
        lemma_wf_from_shape(m, fm);
    } else {
        assert forall|i: int| 0 <= i < rest.len() implies layer_wf(#[trigger] rest[i]) by {
            assert(rest[i] == m[i + 1]);
        }
        assert forall|i: int| #![trigger rest[i], rest[i + 1]] 0 <= i && i + 1 < rest.len() ==> rest[i].no == rest[i
            + 1].ni by {
            if 0 <= i && i + 1 < rest.len() {
                let j = i + 1;
                assert(rest[i] == m[j]);
                assert(rest[i + 1] == m[j + 1]);
                assert(m[j].no == m[j + 1].ni);
            }
        }
        assert(chain_wf(rest));
        assert(rest[0] == m[1]);
        assert(m[0].no == m[1].ni);
        lemma_fwd_props(rest, y);
        let fr = fwd_models(rest, y);
        assert(fm == seq![hf] + fr);
        assert(fm[0] == hf);
        assert forall|i: int| 1 <= i < fm.len() implies fm[i] == #[trigger] fr[i - 1] by {}
        assert(rest.last() == m.last());
        assert forall|i: int| 0 <= i < m.len() implies (#[trigger] fm[i]).ni == m[i].ni
            && fm[i].no == m[i].no && fm[i].act == m[i].act && fm[i].w == m[i].w && fm[i].b
            == m[i].b && fm[i].gw == m[i].gw && fm[i].gb == m[i].gb by {
            if i >= 1 {
                assert(fm[i] == fr[i - 1]);
                assert(rest[i - 1] == m[i]);
            }
        }
        assert forall|i: int| 0 <= i < fm.len() implies layer_wf(#[trigger] fm[i]) by {
            if i >= 1 {
                assert(fm[i] == fr[i - 1]);
            }
        }
        lemma_wf_from_shape(m, fm);
    }
}

/// A gradient update preserves shape, weights and caches, and its returned
/// delta has the first layer's input width.
#[verifier::rlimit(80)]
pub proof fn lemma_upd_props(m: Seq<LayerModel>, r: i64, d: Seq<i64>)
    requires
        chain_wf(m),
    ensures
        upd_dout(m, r, d).len() == m[0].ni,
        upd_models(m, r, d).len() == m.len(),
        same_shape(upd_models(m, r, d), m),
        chain_wf(upd_models(m, r, d)),
        forall|i: int| 0 <= i < m.len() ==> (#[trigger] upd_models(m, r, d)[i]).w == m[i].w,
        forall|i: int| 0 <= i < m.len() ==> (#[trigger] upd_models(m, r, d)[i]).b == m[i].b,
        forall|i: int| 0 <= i < m.len() ==> (#[trigger] upd_models(m, r, d)[i]).cin == m[i].cin,
        forall|i: int| 0 <= i < m.len() ==> (#[trigger] upd_models(m, r, d)[i]).cpre == m[i].cpre,
    decreases m.len(),
{
    let rest = m.subrange(1, m.len() as int);
    let um = upd_models(m, r, d);
    lemma_layer_ops_wf(m[0], m[0].cin, r, d, 0, 0, m[0]);
    if m.len() == 1 {
        assert(upd_dout(rest, r, d) == d);
        assert(um == seq![layer_upd(m[0], r, d)] + upd_models(rest, r, d));
        assert(upd_models(rest, r, d).len() == 0);
        assert(um =~= seq![layer_upd(m[0], r, d)]);
        assert(um[0] == layer_upd(m[0], r, d));
        lemma_layer_ops_wf(m[0], m[0].cin, r, upd_dout(rest, r, d), 0, 0, m[0]);
        lemma_wf_from_shape(m, um);
    } else {
        assert forall|i: int| 0 <= i < rest.len() implies layer_wf(#[trigger] rest[i]) by {
            assert(rest[i] == m[i + 1]);
        }
        assert forall|i: int| #![trigger rest[i], rest[i + 1]] 0 <= i && i + 1 < rest.len() ==> rest[i].no == rest[i
            + 1].ni by {
            if 0 <= i && i + 1 < rest.len() {
                let j = i + 1;
                assert(rest[i] == m[j]);
                assert(rest[i + 1] == m[j + 1]);
                assert(m[j].no == m[j + 1].ni);
            }
        }
        assert(chain_wf(rest));
        lemma_upd_props(rest, r, d);
        let ur = upd_models(rest, r, d);
        let dd = upd_dout(rest, r, d);
        lemma_layer_ops_wf(m[0], m[0].cin, r, dd, 0, 0, m[0]);
        assert(um == seq![layer_upd(m[0], r, dd)] + ur);
        assert(um[0] == layer_upd(m[0], r, dd));
        assert forall|i: int| 1 <= i < um.len() implies um[i] == #[trigger] ur[i - 1] by {}
        assert forall|i: int| 0 <= i < m.len() implies (#[trigger] um[i]).ni == m[i].ni
            && um[i].no == m[i].no && um[i].act == m[i].act && um[i].w == m[i].w && um[i].b
            == m[i].b && um[i].cin == m[i].cin && um[i].cpre == m[i].cpre by {
            if i >= 1 {
                assert(um[i] == ur[i - 1]);
                assert(rest[i - 1] == m[i]);
            }
        }
        assert forall|i: int| 0 <= i < um.len() implies layer_wf(#[trigger] um[i]) by {
            if i >= 1 {
                assert(um[i] == ur[i - 1]);
            }
        }
        lemma_wf_from_shape(m, um);
    }
}

/// Reset zeroes the accumulator and all element-wise operations preserve
/// shape and well-formedness.
#[verifier::rlimit(80)]
pub proof fn lemma_elementwise_props(m: Seq<LayerModel>, alpha: i64, a: i64, rhs: Seq<LayerModel>)
    requires
        chain_wf(m),
        same_shape(rhs, m),
        forall|i: int| 0 <= i < rhs.len() ==> layer_wf(#[trigger] rhs[i]),
    ensures
        chain_wf(reset_models(m)),
        same_shape(reset_models(m), m),
        grad_is_zero(reset_models(m)),
        chain_wf(apply_models(m, alpha)),
        same_shape(apply_models(m, alpha), m),
        chain_wf(rescale_models(m, a)),
        same_shape(rescale_models(m, a), m),
        chain_wf(add_models(m, rhs)),
        same_shape(add_models(m, rhs), m),
{
    assert forall|i: int| 0 <= i < m.len() implies layer_wf(#[trigger] reset_models(m)[i]) by {
        assert(reset_models(m)[i] == reset_layer(m[i]));
    }
    lemma_wf_from_shape(m, reset_models(m));
    assert forall|i: int| 0 <= i < m.len() implies layer_wf(
        #[trigger] apply_models(m, alpha)[i],
    ) by {
        assert(apply_models(m, alpha)[i] == apply_layer(m[i], alpha));
    }
    lemma_wf_from_shape(m, apply_models(m, alpha));
    assert forall|i: int| 0 <= i < m.len() implies layer_wf(#[trigger] rescale_models(m, a)[i]) by {
        assert(rescale_models(m, a)[i] == rescale_layer(m[i], a));
    }
    lemma_wf_from_shape(m, rescale_models(m, a));
    assert forall|i: int| 0 <= i < m.len() implies layer_wf(#[trigger] add_models(m, rhs)[i]) by {
        assert(add_models(m, rhs)[i] == add_layer(m[i], rhs[i]));
    }
    lemma_wf_from_shape(m, add_models(m, rhs));
    assert forall|i: int, o: int, k: int|
        0 <= i < reset_models(m).len() && 0 <= o < reset_models(m)[i].gw.len() && 0 <= k
            < reset_models(m)[i].gw[o].len() implies #[trigger] reset_models(m)[i].gw[o][k]
        == 0 by {
        assert(reset_models(m)[i] == reset_layer(m[i]));
    }
    assert forall|i: int, o: int|
        0 <= i < reset_models(m).len() && 0 <= o < reset_models(m)[i].gb.len() implies #[trigger] reset_models(
            m,
        )[i].gb[o] == 0 by {
        assert(reset_models(m)[i] == reset_layer(m[i]));
    }
}

/// The normalized chain preserves shape and well-formedness.
pub proof fn lemma_normalized_props(m: Seq<LayerModel>)
    requires
        chain_wf(m),
    ensures
        chain_wf(normalized(m)),
        same_shape(normalized(m), m),
{
    if chain_norm2(m) > 0 {
        lemma_elementwise_props(m, 0, fxs_div(SCALE, fxs_sqrt(chain_norm2(m))), m);
    }
}

/// On a single layer, each chain operation reduces to the layer operation.
pub proof fn lemma_singleton_ops(l: LayerModel, x: Seq<i64>, r: i64, d: Seq<i64>, alpha: i64, a: i64, rhs: LayerModel)
    ensures
        fwd_models(seq![l], x) == seq![layer_fwd(l, x)],
        fwd_out(seq![l], x) == layer_out(l, x),
        upd_models(seq![l], r, d) == seq![layer_upd(l, r, d)],
        upd_dout(seq![l], r, d) == layer_dout(l, d),
        reset_models(seq![l]) == seq![reset_layer(l)],
        apply_models(seq![l], alpha) == seq![apply_layer(l, alpha)],
        rescale_models(seq![l], a) == seq![rescale_layer(l, a)],
        add_models(seq![l], seq![rhs]) == seq![add_layer(l, rhs)],
        chain_norm2(seq![l]) == layer_norm2(l),
        chain_param_count(seq![l]) == (l.ni + 1) * l.no,
{
    let s = seq![l];
    let empty = s.subrange(1, 1);
    assert(empty =~= Seq::<LayerModel>::empty());
    assert(empty.len() == 0);
    assert(s[0] == l);
    assert(fwd_models(empty, layer_out(l, x)).len() == 0);
    assert(fwd_models(s, x) =~= seq![layer_fwd(l, x)]);
    assert(fwd_out(empty, layer_out(l, x)) == layer_out(l, x));
    assert(upd_dout(empty, r, d) == d);
    assert(upd_models(empty, r, d).len() == 0);
    assert(upd_models(s, r, d) =~= seq![layer_upd(l, r, d)]);
    assert(reset_models(s) =~= seq![reset_layer(l)]);
    assert(apply_models(s, alpha) =~= seq![apply_layer(l, alpha)]);
    assert(rescale_models(s, a) =~= seq![rescale_layer(l, a)]);
    assert(add_models(s, seq![rhs]) =~= seq![add_layer(l, rhs)]);
    assert(chain_norm2(empty) == 0);
    lemma_layer_norm2_nonneg(l);
    assert(chain_norm2(s) == fxs_add(layer_norm2(l), 0));
    assert(chain_param_count(empty) == 0);
}

// -------------------------------------------------------------- randomize --

/// The half-width of the symmetric interval that freshly randomized weights
/// are drawn from, scaled by the layer's output fan-in.
pub open spec fn rand_bound(no: nat) -> int {
    SCALE as int / no as int
}

/// `f` is `m` with the weights and biases replaced by values within the
/// randomization bound, the gradients and caches untouched.
pub open spec fn randomized_from(f: Seq<LayerModel>, m: Seq<LayerModel>) -> bool {
    &&& same_shape(f, m)
    &&& forall|i: int| 0 <= i < f.len() ==> (#[trigger] f[i]).gw == m[i].gw
    &&& forall|i: int| 0 <= i < f.len() ==> (#[trigger] f[i]).gb == m[i].gb
    &&& forall|i: int| 0 <= i < f.len() ==> (#[trigger] f[i]).cin == m[i].cin
    &&& forall|i: int| 0 <= i < f.len() ==> (#[trigger] f[i]).cpre == m[i].cpre
    &&& forall|i: int, o: int, k: int|
        0 <= i < f.len() && 0 <= o < f[i].w.len() && 0 <= k < f[i].w[o].len()
            ==> -rand_bound(m[i].no) <= #[trigger] f[i].w[o][k] <= rand_bound(m[i].no)
    &&& forall|i: int, o: int|
        0 <= i < f.len() && 0 <= o < f[i].b.len()
            ==> -rand_bound(m[i].no) <= #[trigger] f[i].b[o] <= rand_bound(m[i].no)
}

/// Randomization of two glued chains is randomization of the whole.
pub proof fn lemma_randomized_join(
    f1: Seq<LayerModel>,
    f2: Seq<LayerModel>,
    m1: Seq<LayerModel>,
    m2: Seq<LayerModel>,
)
    requires
        randomized_from(f1, m1),
        randomized_from(f2, m2),
    ensures
        randomized_from(f1 + f2, m1 + m2),
{
    let f = f1 + f2;
    let m = m1 + m2;
    assert forall|i: int| 0 <= i < f.len() implies (#[trigger] f[i]).gw == m[i].gw && f[i].gb
        == m[i].gb && f[i].cin == m[i].cin && f[i].cpre == m[i].cpre && f[i].ni == m[i].ni
        && f[i].no == m[i].no && f[i].act == m[i].act by {
        if i < f1.len() {
            assert(f[i] == f1[i]);
            assert(m[i] == m1[i]);
        } else {
            assert(f[i] == f2[i - f1.len()]);
            assert(m[i] == m2[i - f1.len()]);
        }
    }
    assert forall|i: int, o: int, k: int|
        0 <= i < f.len() && 0 <= o < f[i].w.len() && 0 <= k < f[i].w[o].len()
            implies -rand_bound(m[i].no) <= #[trigger] f[i].w[o][k] <= rand_bound(m[i].no) by {
        if i < f1.len() {
            assert(f[i] == f1[i]);
            assert(m[i] == m1[i]);
        } else {
            assert(f[i] == f2[i - f1.len()]);
            assert(m[i] == m2[i - f1.len()]);
        }
    }
    assert forall|i: int, o: int|
        0 <= i < f.len() && 0 <= o < f[i].b.len() implies -rand_bound(m[i].no) <= #[trigger] f[i].b[o]
            <= rand_bound(m[i].no) by {
        if i < f1.len() {
            assert(f[i] == f1[i]);
            assert(m[i] == m1[i]);
        } else {
            assert(f[i] == f2[i - f1.len()]);
            assert(m[i] == m2[i - f1.len()]);
        }
    }
}

/// The bare composition tree of a stage, with the layer data stripped: two
/// stages can exchange gradients when their trees and layer shapes agree.
pub ghost enum Shape {
    Leaf,
    Node(Box<Shape>, Box<Shape>),
}

/// Shape agreement is transitive.
pub proof fn lemma_same_shape_trans(a: Seq<LayerModel>, b: Seq<LayerModel>, c: Seq<LayerModel>)
    requires
        same_shape(b, a),
        same_shape(c, b),
    ensures
        same_shape(c, a),
{
    assert forall|i: int| 0 <= i < c.len() implies (#[trigger] c[i]).ni == a[i].ni && c[i].no
        == a[i].no && c[i].act == a[i].act by {
        assert(b[i].ni == a[i].ni && b[i].no == a[i].no && b[i].act == a[i].act);
    }
}

/// The output of a chain is the output of its final layer on some hidden
/// vector, so every output unit is an activation value of the final layer.
pub proof fn lemma_fwd_out_is_last_layer(m: Seq<LayerModel>, x: Seq<i64>)
    requires
        chain_wf(m),
        x.len() == m[0].ni,
    ensures
        exists|y: Seq<i64>| #[trigger] fwd_out(m, x) == layer_out(m.last(), y),
    decreases m.len(),
{
    let rest = m.subrange(1, m.len() as int);
    let y0 = layer_out(m[0], x);
    if m.len() == 1 {
        assert(fwd_out(rest, y0) == y0);
        assert(m.last() == m[0]);
        assert(fwd_out(m, x) == layer_out(m.last(), x));
    } else {
        assert forall|i: int| 0 <= i < rest.len() implies layer_wf(#[trigger] rest[i]) by {
            assert(rest[i] == m[i + 1]);
        }
        assert forall|i: int| #![trigger rest[i], rest[i + 1]] 0 <= i && i + 1 < rest.len() ==> rest[i].no == rest[i
            + 1].ni by {
            if 0 <= i && i + 1 < rest.len() {
                let j = i + 1;
                assert(rest[i] == m[j]);
                assert(rest[i + 1] == m[j + 1]);
                assert(m[j].no == m[j + 1].ni);
            }
        }
        assert(chain_wf(rest));
        assert(rest[0] == m[1]);
        assert(m[0].no == m[1].ni);
        lemma_fwd_out_is_last_layer(rest, y0);
        assert(rest.last() == m.last());
        let y = choose|y: Seq<i64>| #[trigger] fwd_out(rest, y0) == layer_out(rest.last(), y);
        assert(fwd_out(m, x) == layer_out(m.last(), y));
    }
}

/// Shape agreement of glued chains splits at the seam.
pub proof fn lemma_same_shape_split(
    m1: Seq<LayerModel>,
    m2: Seq<LayerModel>,
    r1: Seq<LayerModel>,
    r2: Seq<LayerModel>,
)
    requires
        same_shape(r1 + r2, m1 + m2),
        r1.len() == m1.len(),
        r2.len() == m2.len(),
    ensures
        same_shape(r1, m1),
        same_shape(r2, m2),
{
    let r = r1 + r2;
    let m = m1 + m2;
    assert forall|i: int| 0 <= i < r1.len() implies (#[trigger] r1[i]).ni == m1[i].ni && r1[i].no
        == m1[i].no && r1[i].act == m1[i].act by {
        assert(r1[i] == r[i]);
        assert(m1[i] == m[i]);
        assert(r[i].ni == m[i].ni && r[i].no == m[i].no && r[i].act == m[i].act);
    }
    assert forall|i: int| 0 <= i < r2.len() implies (#[trigger] r2[i]).ni == m2[i].ni && r2[i].no
        == m2[i].no && r2[i].act == m2[i].act by {
        assert(r2[i] == r[m1.len() + i]);
        assert(m2[i] == m[m1.len() + i]);
        assert(r[m1.len() + i].ni == m[m1.len() + i].ni && r[m1.len() + i].no == m[m1.len()
            + i].no && r[m1.len() + i].act == m[m1.len() + i].act);
    }
}

/// Shape agreement is symmetric.
pub proof fn lemma_same_shape_sym(a: Seq<LayerModel>, b: Seq<LayerModel>)
    requires
        same_shape(a, b),
    ensures
        same_shape(b, a),
{
    assert forall|i: int| 0 <= i < b.len() implies (#[trigger] b[i]).ni == a[i].ni && b[i].no
        == a[i].no && b[i].act == a[i].act by {
        assert(a[i].ni == b[i].ni && a[i].no == b[i].no && a[i].act == b[i].act);
    }
}

/// Resetting the gradient is idempotent: a second reset changes nothing.
pub proof fn lemma_reset_idempotent(m: Seq<LayerModel>)
    ensures
        reset_models(reset_models(m)) == reset_models(m),
{
    let r = reset_models(m);
    assert forall|i: int| 0 <= i < r.len() implies #[trigger] reset_models(r)[i] == r[i] by {
        assert(r[i] == reset_layer(m[i]));
        assert(reset_models(r)[i] == reset_layer(r[i]));
        assert(reset_layer(r[i]).gw =~~= r[i].gw);
        assert(reset_layer(r[i]).gb =~= r[i].gb);
    }
    assert(reset_models(r) =~= r);
}

/// A fold of squares over an all-zero row stays at the accumulator.
proof fn lemma_row_norm2_zero(acc: i64, row: Seq<i64>, n: nat)
    requires
        acc >= 0,
        forall|k: int| 0 <= k < n ==> #[trigger] row[k] == 0,
        n <= row.len(),
    ensures
        row_norm2_from(acc, row, n) == acc,
    decreases n,
{
    if n > 0 {
        lemma_row_norm2_zero(acc, row, (n - 1) as nat);
        assert(fxs_mul(0i64, 0i64) == 0) by {
            assert(tdiv(0, SCALE as int) == 0) by {
                vstd::arithmetic::div_mod::lemma_div_of0(SCALE as int);
            }
        }
        assert(acc <= MAX_FX);
    }
}

proof fn lemma_layer_norm2_zero_upto(l: LayerModel, o: nat)
    requires
        layer_wf(l),
        forall|q: int, k: int|
            0 <= q < l.gw.len() && 0 <= k < l.gw[q].len() ==> #[trigger] l.gw[q][k] == 0,
        forall|q: int| 0 <= q < l.gb.len() ==> #[trigger] l.gb[q] == 0,
        o <= l.no,
    ensures
        layer_norm2_upto(l, o) == 0,
    decreases o,
{
    if o > 0 {
        lemma_layer_norm2_zero_upto(l, (o - 1) as nat);
        lemma_row_norm2_zero(0, l.gw[o - 1], l.ni);
        assert(fxs_mul(0i64, 0i64) == 0) by {
            assert(tdiv(0, SCALE as int) == 0) by {
                vstd::arithmetic::div_mod::lemma_div_of0(SCALE as int);
            }
        }
    }
}

/// A chain whose gradient accumulator is zero has squared gradient sum
/// exactly zero; in particular this holds right after a reset.
pub proof fn lemma_zero_grad_norm2(m: Seq<LayerModel>)
    requires
        forall|i: int| 0 <= i < m.len() ==> layer_wf(#[trigger] m[i]),
        grad_is_zero(m),
    ensures
        chain_norm2(m) == 0,
    decreases m.len(),
{
    if m.len() > 0 {
        let rest = m.subrange(1, m.len() as int);
        assert(forall|i: int| 0 <= i < rest.len() ==> rest[i] == m[i + 1]);
        assert forall|i: int, o: int, k: int|
            0 <= i < rest.len() && 0 <= o < rest[i].gw.len() && 0 <= k
                < rest[i].gw[o].len() implies #[trigger] rest[i].gw[o][k] == 0 by {
            assert(rest[i] == m[i + 1]);
            assert(m[i + 1].gw[o][k] == 0);
        }
        assert forall|i: int, o: int|
            0 <= i < rest.len() && 0 <= o < rest[i].gb.len() implies #[trigger] rest[i].gb[o]
            == 0 by {
            assert(rest[i] == m[i + 1]);
            assert(m[i + 1].gb[o] == 0);
        }
        lemma_zero_grad_norm2(rest);
        assert forall|q: int, k: int|
            0 <= q < m[0].gw.len() && 0 <= k < m[0].gw[q].len() implies #[trigger] m[0].gw[q][k]
            == 0 by {}
        assert forall|q: int| 0 <= q < m[0].gb.len() implies #[trigger] m[0].gb[q] == 0 by {}
        lemma_layer_norm2_zero_upto(m[0], m[0].no);
    }
}

} // verus!
