use crate::network::{Connection, NeuralNetwork, Target};
use crate::random::{random_bool, random_byte, random_in};
use vstd::prelude::*;

verus! {

/// The three mutation operators.
#[derive(Clone, Copy, Debug, PartialEq, Eq, Structural)]
pub enum Mutation {
    AddNeuron,
    AddConnection,
    ShiftWeight,
}

/// The operator that a uniformly drawn byte selects: 8 of the 256 values add a
/// neuron, 64 add a connection and the other 184 shift a weight.
pub open spec fn spec_mutation_for(draw: u8) -> Mutation {
    if draw < 8 {
        Mutation::AddNeuron
    } else if draw < 72 {
        Mutation::AddConnection
    } else {
        Mutation::ShiftWeight
    }
}

/// The operator that the byte `draw` selects.
pub fn mutation_for(draw: u8) -> (m: Mutation)
    ensures
        m == spec_mutation_for(draw),
{
    if draw < 8 {
        Mutation::AddNeuron
    } else if draw < 72 {
        Mutation::AddConnection
    } else {
        Mutation::ShiftWeight
    }
}

impl<W> NeuralNetwork<W> {
    /// The network has hidden layers and each is narrower than the input
    /// layer: adding a neuron succeeds whichever hidden layer is drawn.
    pub open spec fn room_in_every_hidden_layer(&self) -> bool {
        &&& self.layer_count() > 1
        &&& forall|l: int| 1 <= l < self.layer_count() ==> #[trigger] self.layer_len(l) < self.layer_len(0)
    }

    /// No layer is empty and every neuron has a connection: shifting a weight
    /// succeeds whichever neuron is drawn.
    pub open spec fn every_neuron_connected(&self) -> bool {
        &&& forall|l: int| 0 <= l < self.layer_count() ==> #[trigger] self.layer_len(l) > 0
        &&& forall|a: int, b: int| self.is_neuron(a, b) ==> #[trigger] self.conns(a, b).len() > 0
    }

    /// `next` is `self` after one mutation attempt: unchanged, or with one more
    /// neuron, one more connection, or one weight replaced.
    pub open spec fn one_step(&self, next: Self) -> bool {
        ||| *self == next
        ||| exists|i: int| self.gains_neuron(next, i)
        ||| exists|i: int, j: int, c: Connection<W>| self.gains_connection(next, i, j, c)
        ||| exists|i: int, j: int, k: int, w: W| self.reweighs(next, i, j, k, w)
    }

    /// `trace` runs from a copy of `self` to `last` by one mutation attempt
    /// per step.
    pub open spec fn mutation_trace(&self, trace: Seq<Self>, last: Self) -> bool {
        &&& trace.len() >= 1
        &&& self.same_as(trace[0])
        &&& trace.last() == last
        &&& forall|n: int| 0 <= n < trace.len() - 1 ==> (#[trigger] trace[n]).one_step(trace[n + 1])
    }

    /// `next` can come from `self` by mutation: the same layers, the same input
    /// layer, the same outputs and mutation count; no layer has lost a neuron and
    /// no neuron has lost or retargeted a connection.
    pub open spec fn evolves_to(&self, next: Self) -> bool {
        &&& next.layer_count() == self.layer_count()
        &&& next.layer_len(0) == self.layer_len(0)
        &&& forall|l: int| 0 <= l < self.layer_count() ==> #[trigger] next.layer_len(l) >= self.layer_len(l)
        &&& forall|a: int, b: int|
            #![trigger next.conns(a, b)]
            self.is_neuron(a, b) ==> next.conns(a, b).len() >= self.conns(a, b).len()
        &&& forall|a: int, b: int, k: int|
            #![trigger self.conns(a, b)[k]]
            self.is_neuron(a, b) && 0 <= k < self.conns(a, b).len() ==> next.conns(a, b)[k].target
                == self.conns(a, b)[k].target
        &&& next.outputs() == self.outputs()
        &&& next.mutation_count() == self.mutation_count()
    }
}

proof fn lemma_same_evolves<W>(a: NeuralNetwork<W>, b: NeuralNetwork<W>)
    requires
        a.wf(),
        a.same_as(b),
    ensures
        a.evolves_to(b),
{
    assert forall|l: int| 0 <= l < a.layer_count() implies #[trigger] b.layer_len(l) >= a.layer_len(l) by {}
    assert(b.layer_len(0) == a.layer_len(0));
    assert forall|i: int, j: int| #![trigger b.conns(i, j)] a.is_neuron(i, j) implies b.conns(i, j).len()
        >= a.conns(i, j).len() by {}
    assert forall|i: int, j: int, k: int|
        #![trigger a.conns(i, j)[k]]
        a.is_neuron(i, j) && 0 <= k < a.conns(i, j).len() implies b.conns(i, j)[k].target
        == a.conns(i, j)[k].target by {
        assert(b.conns(i, j) == a.conns(i, j));
    }
}

proof fn lemma_evolves_trans<W>(a: NeuralNetwork<W>, b: NeuralNetwork<W>, c: NeuralNetwork<W>)
    requires
        a.evolves_to(b),
        b.evolves_to(c),
    ensures
        a.evolves_to(c),
{
    assert forall|i: int, j: int| #![trigger c.conns(i, j)] a.is_neuron(i, j) implies c.conns(i, j).len()
        >= a.conns(i, j).len() by {
        assert(b.layer_len(i) >= a.layer_len(i));
        assert(b.is_neuron(i, j));
        assert(b.conns(i, j).len() >= a.conns(i, j).len());
    }
    assert forall|i: int, j: int, k: int|
        #![trigger a.conns(i, j)[k]]
        a.is_neuron(i, j) && 0 <= k < a.conns(i, j).len() implies c.conns(i, j)[k].target
        == a.conns(i, j)[k].target by {
        assert(b.layer_len(i) >= a.layer_len(i));
        assert(b.is_neuron(i, j));
        assert(b.conns(i, j).len() >= a.conns(i, j).len());
        assert(b.conns(i, j)[k].target == a.conns(i, j)[k].target);
    }
}

proof fn lemma_gains_connection_evolves<W>(a: NeuralNetwork<W>, b: NeuralNetwork<W>, i: int, j: int, c: Connection<W>)
    requires
        a.gains_connection(b, i, j, c),
    ensures
        a.evolves_to(b),
{
    assert forall|x: int, y: int, k: int|
        #![trigger a.conns(x, y)[k]]
        a.is_neuron(x, y) && 0 <= k < a.conns(x, y).len() implies b.conns(x, y)[k].target
        == a.conns(x, y)[k].target by {
        if (x, y) == (i, j) {
            assert(b.conns(x, y)[k] == a.conns(x, y)[k]);
        }
    }
}

proof fn lemma_gains_neuron_evolves<W>(a: NeuralNetwork<W>, b: NeuralNetwork<W>, i: int)
    requires
        a.gains_neuron(b, i),
    ensures
        a.evolves_to(b),
{
    assert forall|x: int, y: int, k: int|
        #![trigger a.conns(x, y)[k]]
        a.is_neuron(x, y) && 0 <= k < a.conns(x, y).len() implies b.conns(x, y)[k].target
        == a.conns(x, y)[k].target by {
        assert(b.conns(x, y) == a.conns(x, y));
    }
}

proof fn lemma_reweighs_evolves<W>(a: NeuralNetwork<W>, b: NeuralNetwork<W>, i: int, j: int, k: int, w: W)
    requires
        a.reweighs(b, i, j, k, w),
    ensures
        a.evolves_to(b),
{
    assert forall|x: int, y: int, q: int|
        #![trigger a.conns(x, y)[q]]
        a.is_neuron(x, y) && 0 <= q < a.conns(x, y).len() implies b.conns(x, y)[q].target
        == a.conns(x, y)[q].target by {
        if (x, y) == (i, j) {
            assert(b.conns(x, y)[q].target == a.conns(x, y)[q].target);
        }
    }
}

impl<W: Copy> NeuralNetwork<W> {
    /// The target that a new connection out of layer `layer` gets from the
    /// drawn values: output `output` when `to_output`, else neuron
    /// `further_neuron` of layer `further`; `None` when that output or neuron
    /// does not exist, or `further` is not a later layer.
    pub open spec fn spec_target_for(
        &self,
        layer: int,
        to_output: bool,
        output: usize,
        further: usize,
        further_neuron: usize,
    ) -> Option<Target> {
        if to_output {
            if output < self.outputs() {
                Some(Target::Output(output))
            } else {
                None
            }
        } else if layer < further < self.layer_count() && further_neuron < self.layer_len(further as int) {
            Some(Target::Neuron(further, further_neuron))
        } else {
            None
        }
    }

    /// The target that a new connection out of layer `layer` gets from the
    /// drawn values; see `spec_target_for`.
    pub fn target_for(
        &self,
        layer: usize,
        to_output: bool,
        output: usize,
        further: usize,
        further_neuron: usize,
    ) -> (r: Option<Target>)
        ensures
            r == self.spec_target_for(layer as int, to_output, output, further, further_neuron),
            r matches Some(t) ==> self.target_ok(layer as int, t),
    {
        if to_output {
            if output < self.num_outputs() {
                Some(Target::Output(output))
            } else {
                None
            }
        } else if layer < further && further < self.num_layers() && further_neuron < self.num_neurons(further) {
            Some(Target::Neuron(further, further_neuron))
        } else {
            None
        }
    }

    /// Draws the values that pick a target out of layer `layer`: a fair coin
    /// between an output and a later neuron, then an output, or a later layer
    /// and a neuron in it. A value whose range is empty is not drawn and is 0.
    fn draw_target(&self, layer: usize) -> (r: Option<Target>)
        requires
            self.wf(),
            layer < self.layer_count(),
        ensures
            r matches Some(t) ==> self.target_ok(layer as int, t),
    {
        let n_layers = self.num_layers();
        let to_output = random_bool();
        let mut output: usize = 0;
        let mut further: usize = 0;
        let mut further_neuron: usize = 0;
        if to_output {
            let outs = self.num_outputs();
            if outs > 0 {
                output = random_in(0, outs);
            }
        } else if layer + 1 < n_layers {
            further = random_in(layer + 1, n_layers);
            let width = self.num_neurons(further);
            if width > 0 {
                further_neuron = random_in(0, width);
            }
        }
        self.target_for(layer, to_output, output, further, further_neuron)
    }

    /// Draws a neuron and a target for it and connects them with a weight from
    /// `fresh_weight`; does nothing when a draw hits an empty layer or when the
    /// neuron already has a connection to that target.
    pub fn mutate_add_connection<F: Fn() -> W>(&mut self, fresh_weight: &F)
        requires
            old(self).wf(),
            fresh_weight.requires(()),
        ensures
            final(self).wf(),
            final(self).feed_forward(),
            final(self).no_duplicate_targets(),
            old(self).evolves_to(*final(self)),
            *final(self) == *old(self) || exists|i: int, j: int, c: Connection<W>|
                old(self).gains_connection(*final(self), i, j, c),
    {
        let ghost prev = *self;
        proof {
            lemma_same_evolves(prev, prev);
        }
        let layer = random_in(0, self.num_layers());
        let width = self.num_neurons(layer);
        if width == 0 {
            return;
        }
        let neuron = random_in(0, width);
        match self.draw_target(layer) {
            Some(target) => {
                if !self.has_connection_to(layer, neuron, target) {
                    let weight = fresh_weight();
                    self.try_add_connection(layer, neuron, target, weight);
                    proof {
                        let c = Connection { target, weight };
                        assert(prev.gains_connection(*self, layer as int, neuron as int, c));
                        lemma_gains_connection_evolves(prev, *self, layer as int, neuron as int, c);
                    }
                }
            },
            None => {},
        }
    }

    /// Draws a hidden layer and appends a neuron without connections to it,
    /// unless it is already as wide as the input layer. Does nothing on a
    /// network without hidden layers.
    pub fn mutate_add_neuron(&mut self)
        requires
            old(self).wf(),
        ensures
            final(self).wf(),
            final(self).hidden_width_bounded(),
            old(self).evolves_to(*final(self)),
            *final(self) == *old(self) || exists|i: int| old(self).gains_neuron(*final(self), i),
            old(self).room_in_every_hidden_layer() ==> exists|i: int| old(self).gains_neuron(*final(self), i),
    {
        let ghost prev = *self;
        proof {
            lemma_same_evolves(prev, prev);
        }
        let n_layers = self.num_layers();
        if n_layers > 1 {
            let layer = random_in(1, n_layers);
            assert(prev.layer_len(layer as int) >= 0);
            if self.try_add_neuron(layer) {
                proof {
                    lemma_gains_neuron_evolves(prev, *self, layer as int);
                }
            }
        }
    }

    /// Draws a neuron and one of its connections and replaces that
    /// connection's weight `w` by `shift(w)`. Does nothing when the draw hits
    /// an empty layer or a neuron without connections.
    pub fn mutate_shift_weight<S: Fn(W) -> W>(&mut self, shift: &S)
        requires
            old(self).wf(),
            forall|w: W| shift.requires((w,)),
        ensures
            final(self).wf(),
            old(self).evolves_to(*final(self)),
            *final(self) == *old(self) || exists|i: int, j: int, k: int, w: W|
                old(self).reweighs(*final(self), i, j, k, w) && shift.ensures(
                    (old(self).conns(i, j)[k].weight,),
                    w,
                ),
            old(self).every_neuron_connected() ==> exists|i: int, j: int, k: int, w: W|
                old(self).reweighs(*final(self), i, j, k, w) && shift.ensures(
                    (old(self).conns(i, j)[k].weight,),
                    w,
                ),
    {
        let ghost prev = *self;
        proof {
            lemma_same_evolves(prev, prev);
        }
        let layer = random_in(0, self.num_layers());
        let width = self.num_neurons(layer);
        assert(prev.layer_len(layer as int) == width);
        if width == 0 {
            return;
        }
        let neuron = random_in(0, width);
        let count = self.num_connections(layer, neuron);
        assert(prev.conns(layer as int, neuron as int).len() == count);
        if count == 0 {
            return;
        }
        let index = random_in(0, count);
        let conn = self.connection(layer, neuron, index);
        let weight = shift(conn.weight);
        self.set_weight(layer, neuron, index, weight);
        proof {
            lemma_reweighs_evolves(prev, *self, layer as int, neuron as int, index as int, weight);
            assert(prev.reweighs(*self, layer as int, neuron as int, index as int, weight) && shift.ensures(
                (prev.conns(layer as int, neuron as int)[index as int].weight,),
                weight,
            ));
        }
    }

    /// Applies one attempt of operator `m`.
    pub fn apply_mutation<F: Fn() -> W, S: Fn(W) -> W>(&mut self, m: Mutation, fresh_weight: &F, shift: &S)
        requires
            old(self).wf(),
            fresh_weight.requires(()),
            forall|w: W| shift.requires((w,)),
        ensures
            final(self).wf(),
            old(self).evolves_to(*final(self)),
            old(self).one_step(*final(self)),
            m == Mutation::AddNeuron ==> *final(self) == *old(self) || exists|i: int|
                old(self).gains_neuron(*final(self), i),
            m == Mutation::AddConnection ==> *final(self) == *old(self) || exists|
                i: int,
                j: int,
                c: Connection<W>,
            | old(self).gains_connection(*final(self), i, j, c),
            m == Mutation::ShiftWeight ==> *final(self) == *old(self) || exists|
                i: int,
                j: int,
                k: int,
                w: W,
            |
                old(self).reweighs(*final(self), i, j, k, w) && shift.ensures(
                    (old(self).conns(i, j)[k].weight,),
                    w,
                ),
            m == Mutation::AddNeuron && old(self).room_in_every_hidden_layer() ==> exists|i: int|
                old(self).gains_neuron(*final(self), i),
            m == Mutation::ShiftWeight && old(self).every_neuron_connected() ==> exists|
                i: int,
                j: int,
                k: int,
                w: W,
            |
                old(self).reweighs(*final(self), i, j, k, w) && shift.ensures(
                    (old(self).conns(i, j)[k].weight,),
                    w,
                ),
    {
        match m {
            Mutation::AddNeuron => self.mutate_add_neuron(),
            Mutation::AddConnection => self.mutate_add_connection(fresh_weight),
            Mutation::ShiftWeight => self.mutate_shift_weight(shift),
        }
    }

    /// A mutated copy: the network is copied and the copy undergoes as many
    /// mutation attempts as the network's mutation count, each with an
    /// operator chosen by `mutation_for` from a random byte. The network
    /// itself is left as it is.
    pub fn child<F: Fn() -> W, S: Fn(W) -> W>(&self, fresh_weight: &F, shift: &S) -> (c: Self)
        requires
            self.wf(),
            fresh_weight.requires(()),
            forall|w: W| shift.requires((w,)),
        ensures
            c.wf(),
            c.feed_forward(),
            c.no_duplicate_targets(),
            c.hidden_width_bounded(),
            self.evolves_to(c),
            self.mutation_count() == 0 ==> self.same_as(c),
            exists|trace: Seq<Self>| trace.len() == self.mutation_count() + 1 && self.mutation_trace(trace, c),
    {
        let mut c = self.duplicate();
        proof {
            lemma_same_evolves(*self, c);
        }
        let count = self.num_mutations();
        let mut t: usize = 0;
        let ghost mut trace: Seq<Self> = seq![c];
        while t < count
            invariant
                c.wf(),
                self.evolves_to(c),
                count == self.mutation_count(),
                t <= count,
                t == 0 ==> self.same_as(c),
                trace.len() == t + 1,
                self.mutation_trace(trace, c),
                fresh_weight.requires(()),
                forall|w: W| shift.requires((w,)),
            decreases count - t,
        {
            let ghost before = c;
            c.apply_mutation(mutation_for(random_byte()), fresh_weight, shift);
            proof {
                lemma_evolves_trans(*self, before, c);
                let prev_trace = trace;
                trace = trace.push(c);
                assert forall|n: int| 0 <= n < trace.len() - 1 implies (#[trigger] trace[n]).one_step(trace[n + 1]) by {
                    if n < prev_trace.len() - 1 {
                        assert(trace[n] == prev_trace[n]);
                        assert(trace[n + 1] == prev_trace[n + 1]);
                    }
                }
            }
            t = t + 1;
        }
        c
    }
}

} // verus!
