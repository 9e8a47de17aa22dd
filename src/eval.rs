use crate::network::{Connection, NeuralNetwork, RunError, Target};
use vstd::prelude::*;

verus! {

/// The result that a deterministic two-argument function gives on `(a, b)`.
pub open spec fn apply<W, F: Fn(W, W) -> W>(f: F, a: W, b: W) -> W {
    choose|r: W| f.ensures((a, b), r)
}

/// `f` has at most one result for each pair of arguments.
pub open spec fn deterministic<W, F: Fn(W, W) -> W>(f: F) -> bool {
    forall|a: W, b: W, r: W| #[trigger] f.ensures((a, b), r) ==> r == apply(f, a, b)
}

/// Accumulators of one evaluation: one per neuron (by layer) and one per output.
pub type Sums<W> = (Seq<Seq<W>>, Seq<W>);

/// Adds `s * c.weight` to the accumulator that `c` leads to.
pub open spec fn deliver<W, A: Fn(W, W) -> W, M: Fn(W, W) -> W>(
    st: Sums<W>,
    s: W,
    c: Connection<W>,
    plus: A,
    times: M,
) -> Sums<W> {
    let x = apply(times, s, c.weight);
    match c.target {
        Target::Neuron(l, n) => (
            st.0.update(l as int, st.0[l as int].update(n as int, apply(plus, st.0[l as int][n as int], x))),
            st.1,
        ),
        Target::Output(o) => (st.0, st.1.update(o as int, apply(plus, st.1[o as int], x))),
    }
}

impl<W> NeuralNetwork<W> {
    /// The accumulators after neuron `j` of layer `i` has sent its sum along its
    /// first `k` connections, in order, starting from `st`.
    pub open spec fn fire<A: Fn(W, W) -> W, M: Fn(W, W) -> W>(
        &self,
        st: Sums<W>,
        i: int,
        j: int,
        k: nat,
        plus: A,
        times: M,
    ) -> Sums<W>
        decreases k,
    {
        if k == 0 {
            st
        } else {
            deliver(self.fire(st, i, j, (k - 1) as nat, plus, times), st.0[i][j], self.conns(i, j)[k - 1], plus, times)
        }
    }

    /// The accumulators after the first `j` neurons of layer `i` have fired, in
    /// order, starting from `st`.
    pub open spec fn sweep_layer<A: Fn(W, W) -> W, M: Fn(W, W) -> W>(
        &self,
        st: Sums<W>,
        i: int,
        j: nat,
        plus: A,
        times: M,
    ) -> Sums<W>
        decreases j,
    {
        if j == 0 {
            st
        } else {
            let prev = self.sweep_layer(st, i, (j - 1) as nat, plus, times);
            self.fire(prev, i, j - 1, self.conns(i, j - 1).len(), plus, times)
        }
    }

    /// The accumulators after the first `i` layers have fired, in order,
    /// starting from `st`.
    pub open spec fn sweep<A: Fn(W, W) -> W, M: Fn(W, W) -> W>(
        &self,
        st: Sums<W>,
        i: nat,
        plus: A,
        times: M,
    ) -> Sums<W>
        decreases i,
    {
        if i == 0 {
            st
        } else {
            let prev = self.sweep(st, (i - 1) as nat, plus, times);
            self.sweep_layer(prev, i - 1, self.layer_len(i - 1), plus, times)
        }
    }

    /// Accumulators before the sweep: `zero + inputs[n]` for input neuron `n`,
    /// `zero` everywhere else.
    pub open spec fn start<A: Fn(W, W) -> W>(&self, inputs: Seq<W>, zero: W, plus: A) -> Sums<W> {
        (
            Seq::new(
                self.layer_count(),
                |l: int|
                    Seq::new(
                        self.layer_len(l),
                        |n: int|
                            if l == 0 {
                                apply(plus, zero, inputs[n])
                            } else {
                                zero
                            },
                    ),
            ),
            Seq::new(self.outputs(), |o: int| zero),
        )
    }

    /// The outputs that one sweep over the layers, in ascending order, gives
    /// for `inputs`.
    pub open spec fn evaluate<A: Fn(W, W) -> W, M: Fn(W, W) -> W>(
        &self,
        inputs: Seq<W>,
        zero: W,
        plus: A,
        times: M,
    ) -> Seq<W> {
        self.sweep(self.start(inputs, zero, plus), self.layer_count(), plus, times).1
    }
}

/// The accumulators held in `acc` and `outs`.
pub open spec fn sums_of<W>(acc: Vec<Vec<W>>, outs: Vec<W>) -> Sums<W> {
    (acc@.map_values(|v: Vec<W>| v@), outs@)
}

impl<W: Copy> NeuralNetwork<W> {
    /// The shape of the accumulators matches the network.
    pub open spec fn fits(&self, st: Sums<W>) -> bool {
        &&& st.0.len() == self.layer_count()
        &&& forall|l: int| 0 <= l < self.layer_count() ==> #[trigger] st.0[l].len() == self.layer_len(l)
        &&& st.1.len() == self.outputs()
    }

    /// Neuron `j` of layer `i` sends its sum along each of its connections.
    fn fire_neuron<A: Fn(W, W) -> W, M: Fn(W, W) -> W>(
        &self,
        acc: &mut Vec<Vec<W>>,
        outs: &mut Vec<W>,
        i: usize,
        j: usize,
        plus: &A,
        times: &M,
    )
        requires
            self.wf(),
            self.is_neuron(i as int, j as int),
            self.fits(sums_of(*old(acc), *old(outs))),
            forall|a: W, b: W| plus.requires((a, b)),
            forall|a: W, b: W| times.requires((a, b)),
            deterministic(*plus),
            deterministic(*times),
        ensures
            self.fits(sums_of(*final(acc), *final(outs))),
            sums_of(*final(acc), *final(outs)) == self.fire(
                sums_of(*old(acc), *old(outs)),
                i as int,
                j as int,
                self.conns(i as int, j as int).len(),
                *plus,
                *times,
            ),
    {
        let ghost st0 = sums_of(*acc, *outs);
        assert(st0.0[i as int] == acc@[i as int]@);
        assert(st0.0[i as int].len() == self.layer_len(i as int));
        let s = acc[i][j];
        let count = self.num_connections(i, j);
        let mut k: usize = 0;
        while k < count
            invariant
                self.wf(),
                self.is_neuron(i as int, j as int),
                count == self.conns(i as int, j as int).len(),
                k <= count,
                s == st0.0[i as int][j as int],
                self.fits(sums_of(*acc, *outs)),
                sums_of(*acc, *outs) == self.fire(st0, i as int, j as int, k as nat, *plus, *times),
                forall|a: W, b: W| plus.requires((a, b)),
                forall|a: W, b: W| times.requires((a, b)),
                deterministic(*plus),
                deterministic(*times),
            decreases count - k,
        {
            let ghost before = sums_of(*acc, *outs);
            let c = self.connection(i, j, k);
            assert(self.target_ok(i as int, c.target));
            let x = times(s, c.weight);
            match c.target {
                Target::Neuron(l, n) => {
                    assert(before.0[l as int].len() == self.layer_len(l as int));
                    let y = plus(acc[l][n], x);
                    acc[l].set(n, y);
                },
                Target::Output(o) => {
                    let y = plus(outs[o], x);
                    outs.set(o, y);
                },
            }
            proof {
                let after = sums_of(*acc, *outs);
                let want = deliver(before, s, c, *plus, *times);
                assert(after.0 =~= want.0);
                assert(after.1 =~= want.1);
            }
            k = k + 1;
        }
    }

    /// Evaluates the network on `inputs`: input neuron `n` starts at
    /// `zero + inputs[n]`, every other neuron and every output at `zero`; then
    /// the layers fire in ascending order, each neuron adding its sum times
    /// the weight to the target of each of its connections, in order. The
    /// outputs are the output accumulators at the end. Fails when there are not
    /// as many inputs as input neurons.
    pub fn run<A: Fn(W, W) -> W, M: Fn(W, W) -> W>(
        &self,
        inputs: Vec<W>,
        zero: W,
        plus: &A,
        times: &M,
    ) -> (r: Result<Vec<W>, RunError>)
        requires
            self.wf(),
            forall|a: W, b: W| plus.requires((a, b)),
            forall|a: W, b: W| times.requires((a, b)),
            deterministic(*plus),
            deterministic(*times),
        ensures
            r is Err <==> inputs@.len() != self.layer_len(0),
            r matches Err(e) ==> e == RunError::InvalidInputSize,
            r matches Ok(v) ==> v@ == self.evaluate(inputs@, zero, *plus, *times),
            r matches Ok(v) ==> v@.len() == self.outputs(),
    {
        if inputs.len() != self.num_neurons(0) {
            return Err(RunError::InvalidInputSize);
        }
        let ghost st0 = self.start(inputs@, zero, *plus);
        let n_layers = self.num_layers();
        let mut acc: Vec<Vec<W>> = Vec::new();
        let mut l: usize = 0;
        while l < n_layers
            invariant
                n_layers == self.layer_count(),
                inputs@.len() == self.layer_len(0),
                st0 == self.start(inputs@, zero, *plus),
                forall|a: W, b: W| plus.requires((a, b)),
                deterministic(*plus),
                l <= n_layers,
                acc@.len() == l,
                forall|m: int| 0 <= m < l ==> (#[trigger] acc@[m])@ == st0.0[m],
            decreases n_layers - l,
        {
            let width = self.num_neurons(l);
            let mut row: Vec<W> = Vec::new();
            let mut n: usize = 0;
            while n < width
                invariant
                    width == self.layer_len(l as int),
                    l < n_layers,
                    n_layers == self.layer_count(),
                    inputs@.len() == self.layer_len(0),
                    forall|a: W, b: W| plus.requires((a, b)),
                    deterministic(*plus),
                    n <= width,
                    row@.len() == n,
                    forall|q: int| 0 <= q < n ==> #[trigger] row@[q] == st0.0[l as int][q],
                    st0 == self.start(inputs@, zero, *plus),
                decreases width - n,
            {
                if l == 0 {
                    let v = plus(zero, inputs[n]);
                    row.push(v);
                } else {
                    row.push(zero);
                }
                n = n + 1;
            }
            assert(row@ =~= st0.0[l as int]);
            acc.push(row);
            l = l + 1;
        }
        let mut outs: Vec<W> = Vec::new();
        let n_outputs = self.num_outputs();
        let mut o: usize = 0;
        while o < n_outputs
            invariant
                n_outputs == self.outputs(),
                o <= n_outputs,
                outs@.len() == o,
                forall|q: int| 0 <= q < o ==> #[trigger] outs@[q] == zero,
            decreases n_outputs - o,
        {
            outs.push(zero);
            o = o + 1;
        }
        assert(sums_of(acc, outs).0 =~= st0.0);
        assert(sums_of(acc, outs).1 =~= st0.1);
        let mut i: usize = 0;
        while i < n_layers
            invariant
                self.wf(),
                n_layers == self.layer_count(),
                i <= n_layers,
                self.fits(sums_of(acc, outs)),
                sums_of(acc, outs) == self.sweep(st0, i as nat, *plus, *times),
                forall|a: W, b: W| plus.requires((a, b)),
                forall|a: W, b: W| times.requires((a, b)),
                deterministic(*plus),
                deterministic(*times),
            decreases n_layers - i,
        {
            let ghost at_layer = sums_of(acc, outs);
            let width = self.num_neurons(i);
            let mut j: usize = 0;
            while j < width
                invariant
                    self.wf(),
                    i < n_layers,
                    n_layers == self.layer_count(),
                    width == self.layer_len(i as int),
                    j <= width,
                    self.fits(sums_of(acc, outs)),
                    sums_of(acc, outs) == self.sweep_layer(at_layer, i as int, j as nat, *plus, *times),
                    forall|a: W, b: W| plus.requires((a, b)),
                    forall|a: W, b: W| times.requires((a, b)),
                    deterministic(*plus),
                    deterministic(*times),
                decreases width - j,
            {
                self.fire_neuron(&mut acc, &mut outs, i, j, plus, times);
                j = j + 1;
            }
            i = i + 1;
        }
        Ok(outs)
    }
}

/// `zero` is a left identity of `plus`.
pub open spec fn left_identity<W, A: Fn(W, W) -> W>(plus: A, zero: W) -> bool {
    forall|a: W| #[trigger] apply(plus, zero, a) == a
}

/// A network of one layer, whose single input neuron has one connection, to
/// output 0 with weight `w`, evaluates input `x` to `x * w` at output 0.
pub proof fn lemma_direct_connection<W, A: Fn(W, W) -> W, M: Fn(W, W) -> W>(
    net: NeuralNetwork<W>,
    x: W,
    w: W,
    zero: W,
    plus: A,
    times: M,
)
    requires
        net.wf(),
        net.layer_count() == 1,
        net.layer_len(0) == 1,
        net.conns(0, 0) == seq![Connection { target: Target::Output(0), weight: w }],
        left_identity(plus, zero),
    ensures
        net.evaluate(seq![x], zero, plus, times)[0] == apply(times, x, w),
{
    let st = net.start(seq![x], zero, plus);
    let c = Connection { target: Target::Output(0), weight: w };
    assert(st.0[0][0] == x);
    assert(net.fire(st, 0, 0, 0, plus, times) == st);
    assert(net.fire(st, 0, 0, 1, plus, times) == deliver(st, x, c, plus, times));
    assert(net.sweep_layer(st, 0, 0, plus, times) == st);
    assert(net.sweep_layer(st, 0, 1, plus, times) == net.fire(st, 0, 0, 1, plus, times));
    assert(net.sweep(st, 0, plus, times) == st);
    assert(net.sweep(st, 1, plus, times) == net.sweep_layer(st, 0, 1, plus, times));
}

/// An input neuron connected, with weight `w1`, to the single neuron of the
/// next and last layer, itself connected to output 0 with weight `w2`,
/// evaluates input `x` to `x * w1 * w2` at output 0.
pub proof fn lemma_chain<W, A: Fn(W, W) -> W, M: Fn(W, W) -> W>(
    net: NeuralNetwork<W>,
    x: W,
    w1: W,
    w2: W,
    zero: W,
    plus: A,
    times: M,
)
    requires
        net.wf(),
        net.layer_count() == 2,
        net.layer_len(0) == 1,
        net.layer_len(1) == 1,
        net.conns(0, 0) == seq![Connection { target: Target::Neuron(1, 0), weight: w1 }],
        net.conns(1, 0) == seq![Connection { target: Target::Output(0), weight: w2 }],
        left_identity(plus, zero),
    ensures
        net.evaluate(seq![x], zero, plus, times)[0] == apply(times, apply(times, x, w1), w2),
{
    let st = net.start(seq![x], zero, plus);
    let c1 = Connection { target: Target::Neuron(1, 0), weight: w1 };
    let c2 = Connection { target: Target::Output(0), weight: w2 };
    assert(st.0[0][0] == x);
    assert(st.0[1][0] == zero);
    assert(net.fire(st, 0, 0, 0, plus, times) == st);
    let st1 = deliver(st, x, c1, plus, times);
    assert(net.fire(st, 0, 0, 1, plus, times) == st1);
    assert(net.sweep_layer(st, 0, 0, plus, times) == st);
    assert(net.sweep_layer(st, 0, 1, plus, times) == st1);
    assert(net.sweep(st, 0, plus, times) == st);
    assert(net.sweep(st, 1, plus, times) == st1);
    let h = apply(times, x, w1);
    assert(st1.0[1][0] == h);
    assert(net.fire(st1, 1, 0, 0, plus, times) == st1);
    let st2 = deliver(st1, h, c2, plus, times);
    assert(net.fire(st1, 1, 0, 1, plus, times) == st2);
    assert(net.sweep_layer(st1, 1, 0, plus, times) == st1);
    assert(net.sweep_layer(st1, 1, 1, plus, times) == st2);
    assert(net.sweep(st, 2, plus, times) == st2);
}

/// Two evaluations of one network on the same inputs give the same outputs:
/// any two results that `run` may return for them are equal.
pub proof fn lemma_run_repeatable<W, A: Fn(W, W) -> W, M: Fn(W, W) -> W>(
    net: NeuralNetwork<W>,
    inputs: Seq<W>,
    zero: W,
    plus: A,
    times: M,
    first: Result<Vec<W>, RunError>,
    second: Result<Vec<W>, RunError>,
)
    requires
        first is Err <==> inputs.len() != net.layer_len(0),
        first matches Err(e) ==> e == RunError::InvalidInputSize,
        first matches Ok(v) ==> v@ == net.evaluate(inputs, zero, plus, times),
        second is Err <==> inputs.len() != net.layer_len(0),
        second matches Err(e) ==> e == RunError::InvalidInputSize,
        second matches Ok(v) ==> v@ == net.evaluate(inputs, zero, plus, times),
    ensures
        first is Err <==> second is Err,
        first matches Ok(v1) ==> second matches Ok(v2) && v1@ == v2@,
        first matches Err(e1) ==> second matches Err(e2) && e1 == e2,
{
}


proof fn lemma_fire_keeps_earlier<W: Copy, A: Fn(W, W) -> W, M: Fn(W, W) -> W>(
    net: NeuralNetwork<W>,
    st: Sums<W>,
    i: int,
    j: int,
    k: nat,
    plus: A,
    times: M,
)
    requires
        net.wf(),
        net.is_neuron(i, j),
        k <= net.conns(i, j).len(),
        net.fits(st),
    ensures
        net.fits(net.fire(st, i, j, k, plus, times)),
        forall|l: int| 0 <= l <= i ==> #[trigger] net.fire(st, i, j, k, plus, times).0[l] == st.0[l],
    decreases k,
{
    if k > 0 {
        lemma_fire_keeps_earlier(net, st, i, j, (k - 1) as nat, plus, times);
        let prev = net.fire(st, i, j, (k - 1) as nat, plus, times);
        let c = net.conns(i, j)[k - 1];
        assert(net.target_ok(i, c.target));
        let next = net.fire(st, i, j, k, plus, times);
        assert(next == deliver(prev, st.0[i][j], c, plus, times));
        match c.target {
            Target::Neuron(t, n) => {
                assert(prev.0[t as int].len() == net.layer_len(t as int));
                assert forall|l: int| 0 <= l < net.layer_count() implies #[trigger] next.0[l].len() == net.layer_len(l) by {
                    if l != t {
                        assert(next.0[l] == prev.0[l]);
                    }
                }
                assert forall|l: int| 0 <= l <= i implies #[trigger] next.0[l] == st.0[l] by {
                    assert(next.0[l] == prev.0[l]);
                }
            },
            Target::Output(o) => {},
        }
    }
}

proof fn lemma_sweep_layer_keeps_earlier<W: Copy, A: Fn(W, W) -> W, M: Fn(W, W) -> W>(
    net: NeuralNetwork<W>,
    st: Sums<W>,
    i: int,
    j: nat,
    plus: A,
    times: M,
)
    requires
        net.wf(),
        0 <= i < net.layer_count(),
        j <= net.layer_len(i),
        net.fits(st),
    ensures
        net.fits(net.sweep_layer(st, i, j, plus, times)),
        forall|l: int| 0 <= l <= i ==> #[trigger] net.sweep_layer(st, i, j, plus, times).0[l] == st.0[l],
    decreases j,
{
    if j > 0 {
        lemma_sweep_layer_keeps_earlier(net, st, i, (j - 1) as nat, plus, times);
        let prev = net.sweep_layer(st, i, (j - 1) as nat, plus, times);
        lemma_fire_keeps_earlier(net, prev, i, j - 1, net.conns(i, j - 1).len(), plus, times);
    }
}

proof fn lemma_sweep_fits<W: Copy, A: Fn(W, W) -> W, M: Fn(W, W) -> W>(
    net: NeuralNetwork<W>,
    st: Sums<W>,
    k: nat,
    plus: A,
    times: M,
)
    requires
        net.wf(),
        k <= net.layer_count(),
        net.fits(st),
    ensures
        net.fits(net.sweep(st, k, plus, times)),
    decreases k,
{
    if k > 0 {
        lemma_sweep_fits(net, st, (k - 1) as nat, plus, times);
        let prev = net.sweep(st, (k - 1) as nat, plus, times);
        lemma_sweep_layer_keeps_earlier(net, prev, k - 1, net.layer_len(k - 1), plus, times);
    }
}

/// Layer `l` fires with its final sums: once the layers before it have fired,
/// no later layer adds anything to its neurons, so after every later stage of
/// the sweep its accumulators are those it fired with. This is why one pass
/// over the layers in ascending order propagates every contribution.
pub proof fn lemma_sums_settled_before_firing<W: Copy, A: Fn(W, W) -> W, M: Fn(W, W) -> W>(
    net: NeuralNetwork<W>,
    inputs: Seq<W>,
    zero: W,
    plus: A,
    times: M,
    l: int,
    k: nat,
)
    requires
        net.wf(),
        inputs.len() == net.layer_len(0),
        0 <= l < k <= net.layer_count(),
    ensures
        net.sweep(net.start(inputs, zero, plus), k, plus, times).0[l] == net.sweep(
            net.start(inputs, zero, plus),
            l as nat,
            plus,
            times,
        ).0[l],
    decreases k,
{
    let st = net.start(inputs, zero, plus);
    assert(net.fits(st));
    lemma_sweep_fits(net, st, (k - 1) as nat, plus, times);
    let prev = net.sweep(st, (k - 1) as nat, plus, times);
    lemma_sweep_layer_keeps_earlier(net, prev, k - 1, net.layer_len(k - 1), plus, times);
    if k - 1 > l {
        lemma_sums_settled_before_firing(net, inputs, zero, plus, times, l, (k - 1) as nat);
    }
}

} // verus!
