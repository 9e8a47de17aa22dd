use vstd::prelude::*;

verus! {

/// Where a connection leads: a neuron of a later layer, or an output.
#[derive(Clone, Copy, Debug, PartialEq, Eq, Structural)]
pub enum Target {
    /// `Neuron(layer, index)`
    Neuron(usize, usize),
    Output(usize),
}

/// A directed, weighted edge out of a neuron.
#[derive(Clone, Copy, Debug)]
pub struct Connection<W> {
    pub target: Target,
    pub weight: W,
}

/// A neuron and its outgoing connections.
#[derive(Clone, Debug)]
pub struct Neuron<W> {
    pub connections: Vec<Connection<W>>,
}

/// The one way evaluation can fail: the number of inputs differs from the
/// width of the input layer.
#[derive(Clone, Copy, Debug, PartialEq, Eq, Structural)]
pub enum RunError {
    InvalidInputSize,
}

/// A layered feed-forward network.
#[derive(Clone, Debug)]
pub struct NeuralNetwork<W> {
    layers: Vec<Vec<Neuron<W>>>,
    output_count: usize,
    mutations: usize,
}

impl<W> NeuralNetwork<W> {
    /// Number of layers, the input layer included.
    pub closed spec fn layer_count(&self) -> nat {
        self.layers@.len()
    }

    /// Number of neurons in layer `i`.
    pub closed spec fn layer_len(&self, i: int) -> nat {
        self.layers@[i]@.len()
    }

    /// Outgoing connections of neuron `j` of layer `i`.
    pub closed spec fn conns(&self, i: int, j: int) -> Seq<Connection<W>> {
        self.layers@[i]@[j].connections@
    }

    pub closed spec fn outputs(&self) -> nat {
        self.output_count as nat
    }

    /// How many mutation attempts `child` applies.
    pub closed spec fn mutation_count(&self) -> nat {
        self.mutations as nat
    }

    pub open spec fn is_neuron(&self, i: int, j: int) -> bool {
        0 <= i < self.layer_count() && 0 <= j < self.layer_len(i)
    }

    /// A connection out of layer `i` may lead to `t`: a neuron of a strictly
    /// later layer, or an output.
    pub open spec fn target_ok(&self, i: int, t: Target) -> bool {
        match t {
            Target::Neuron(l, n) => i < l && self.is_neuron(l as int, n as int),
            Target::Output(o) => o < self.outputs(),
        }
    }

    /// Neuron `j` of layer `i` already has a connection to `t`.
    pub open spec fn has_target(&self, i: int, j: int, t: Target) -> bool {
        exists|k: int| 0 <= k < self.conns(i, j).len() && #[trigger] self.conns(i, j)[k].target == t
    }

    /// Every connection leads forward: to a later layer or to an output.
    pub open spec fn feed_forward(&self) -> bool {
        forall|i: int, j: int, k: int|
            self.is_neuron(i, j) && 0 <= k < self.conns(i, j).len() ==> self.target_ok(
                i,
                #[trigger] self.conns(i, j)[k].target,
            )
    }

    /// No neuron has two connections to the same target.
    pub open spec fn no_duplicate_targets(&self) -> bool {
        forall|i: int, j: int, k1: int, k2: int|
            self.is_neuron(i, j) && 0 <= k1 < self.conns(i, j).len() && 0 <= k2 < self.conns(
                i,
                j,
            ).len() && k1 != k2 ==> #[trigger] self.conns(i, j)[k1].target
                != #[trigger] self.conns(i, j)[k2].target
    }

    /// No hidden layer is wider than the input layer.
    pub open spec fn hidden_width_bounded(&self) -> bool {
        forall|i: int| 1 <= i < self.layer_count() ==> #[trigger] self.layer_len(i) <= self.layer_len(0)
    }

    /// `next` is `self` with one more connection, `c`, at the end of the
    /// connections of neuron `j` of layer `i`; all else is as it was.
    pub open spec fn gains_connection(&self, next: Self, i: int, j: int, c: Connection<W>) -> bool {
        &&& self.is_neuron(i, j)
        &&& self.target_ok(i, c.target)
        &&& !self.has_target(i, j, c.target)
        &&& next.conns(i, j) == self.conns(i, j).push(c)
        &&& next.layer_count() == self.layer_count()
        &&& forall|l: int| 0 <= l < self.layer_count() ==> #[trigger] next.layer_len(l) == self.layer_len(l)
        &&& forall|a: int, b: int|
            #![trigger next.conns(a, b)]
            self.is_neuron(a, b) && (a, b) != (i, j) ==> next.conns(a, b) == self.conns(a, b)
        &&& next.outputs() == self.outputs()
        &&& next.mutation_count() == self.mutation_count()
    }

    /// `next` is `self` with one more neuron, without connections, at the end
    /// of hidden layer `i`; all else is as it was.
    pub open spec fn gains_neuron(&self, next: Self, i: int) -> bool {
        &&& 1 <= i < self.layer_count()
        &&& self.layer_len(i) < self.layer_len(0)
        &&& next.layer_count() == self.layer_count()
        &&& next.layer_len(i) == self.layer_len(i) + 1
        &&& forall|l: int| 0 <= l < self.layer_count() && l != i ==> #[trigger] next.layer_len(l) == self.layer_len(l)
        &&& forall|a: int, b: int| #![trigger next.conns(a, b)] self.is_neuron(a, b) ==> next.conns(a, b) == self.conns(a, b)
        &&& next.conns(i, self.layer_len(i) as int).len() == 0
        &&& next.outputs() == self.outputs()
        &&& next.mutation_count() == self.mutation_count()
    }

    /// `next` is `self` with the weight of connection `k` of neuron `j` of
    /// layer `i` set to `w`; all else is as it was.
    pub open spec fn reweighs(&self, next: Self, i: int, j: int, k: int, w: W) -> bool {
        &&& self.is_neuron(i, j)
        &&& 0 <= k < self.conns(i, j).len()
        &&& next.conns(i, j) == self.conns(i, j).update(k, Connection { target: self.conns(i, j)[k].target, weight: w })
        &&& next.layer_count() == self.layer_count()
        &&& forall|l: int| 0 <= l < self.layer_count() ==> #[trigger] next.layer_len(l) == self.layer_len(l)
        &&& forall|a: int, b: int|
            #![trigger next.conns(a, b)]
            self.is_neuron(a, b) && (a, b) != (i, j) ==> next.conns(a, b) == self.conns(a, b)
        &&& next.outputs() == self.outputs()
        &&& next.mutation_count() == self.mutation_count()
    }

    /// `next` has the same layers, neurons, connections and weights as `self`.
    pub open spec fn same_as(&self, next: Self) -> bool {
        &&& next.layer_count() == self.layer_count()
        &&& forall|l: int| 0 <= l < self.layer_count() ==> #[trigger] next.layer_len(l) == self.layer_len(l)
        &&& forall|a: int, b: int| #![trigger next.conns(a, b)] self.is_neuron(a, b) ==> next.conns(a, b) == self.conns(a, b)
        &&& next.outputs() == self.outputs()
        &&& next.mutation_count() == self.mutation_count()
    }


    /// The network's invariant.
    pub open spec fn wf(&self) -> bool {
        &&& self.layer_count() >= 1
        &&& self.feed_forward()
        &&& self.no_duplicate_targets()
        &&& self.hidden_width_bounded()
    }
}

impl<W: Copy> NeuralNetwork<W> {
    /// Number of layers, the input layer included.
    pub fn num_layers(&self) -> (r: usize)
        ensures
            r == self.layer_count(),
    {
        self.layers.len()
    }

    /// Number of neurons in layer `layer`.
    pub fn num_neurons(&self, layer: usize) -> (r: usize)
        requires
            layer < self.layer_count(),
        ensures
            r == self.layer_len(layer as int),
    {
        self.layers[layer].len()
    }

    /// Number of outgoing connections of a neuron.
    pub fn num_connections(&self, layer: usize, neuron: usize) -> (r: usize)
        requires
            self.is_neuron(layer as int, neuron as int),
        ensures
            r == self.conns(layer as int, neuron as int).len(),
    {
        self.layers[layer][neuron].connections.len()
    }

    pub fn num_outputs(&self) -> (r: usize)
        ensures
            r == self.outputs(),
    {
        self.output_count
    }

    pub fn num_mutations(&self) -> (r: usize)
        ensures
            r == self.mutation_count(),
    {
        self.mutations
    }

    /// The `index`-th outgoing connection of a neuron.
    pub fn connection(&self, layer: usize, neuron: usize, index: usize) -> (r: Connection<W>)
        requires
            self.is_neuron(layer as int, neuron as int),
            index < self.conns(layer as int, neuron as int).len(),
        ensures
            r == self.conns(layer as int, neuron as int)[index as int],
    {
        self.layers[layer][neuron].connections[index]
    }

    /// Whether a neuron already has a connection to `target`.
    pub fn has_connection_to(&self, layer: usize, neuron: usize, target: Target) -> (r: bool)
        requires
            self.is_neuron(layer as int, neuron as int),
        ensures
            r == self.has_target(layer as int, neuron as int, target),
    {
        let conns = &self.layers[layer][neuron].connections;
        let mut k: usize = 0;
        while k < conns.len()
            invariant
                conns@ == self.conns(layer as int, neuron as int),
                k <= conns@.len(),
                forall|m: int| 0 <= m < k ==> (#[trigger] conns@[m]).target != target,
            decreases conns@.len() - k,
        {
            if conns[k].target == target {
                return true;
            }
            k = k + 1;
        }
        false
    }

    /// Whether a connection out of layer `layer` may lead to `target`.
    pub fn is_valid_target(&self, layer: usize, target: Target) -> (r: bool)
        ensures
            r == self.target_ok(layer as int, target),
    {
        match target {
            Target::Neuron(l, n) => layer < l && l < self.layers.len() && n < self.layers[l].len(),
            Target::Output(o) => o < self.output_count,
        }
    }

    /// Connects a neuron to `target` with `weight`, unless the connection would
    /// not lead forward or the neuron already has a connection to `target`; in
    /// those cases the network is left as it is. Returns whether it connected.
    pub fn try_add_connection(&mut self, layer: usize, neuron: usize, target: Target, weight: W) -> (added: bool)
        requires
            old(self).wf(),
            old(self).is_neuron(layer as int, neuron as int),
        ensures
            final(self).wf(),
            added == (old(self).target_ok(layer as int, target) && !old(self).has_target(
                layer as int,
                neuron as int,
                target,
            )),
            !added ==> *final(self) == *old(self),
            added ==> old(self).gains_connection(
                *final(self),
                layer as int,
                neuron as int,
                Connection { target, weight },
            ),
    {
        if !self.is_valid_target(layer, target) || self.has_connection_to(layer, neuron, target) {
            return false;
        }
        let ghost prev = *self;
        self.layers[layer][neuron].connections.push(Connection { target, weight });
        proof {
            assert forall|i: int, j: int|
                #![trigger self.conns(i, j)]
                prev.is_neuron(i, j) && (i, j) != (layer as int, neuron as int) implies self.conns(i, j)
                == prev.conns(i, j) by {}
            assert(self.conns(layer as int, neuron as int) == prev.conns(layer as int, neuron as int).push(
                Connection { target, weight },
            ));
            assert forall|i: int| 0 <= i < self.layer_count() implies #[trigger] self.layer_len(i)
                == prev.layer_len(i) by {}
        }
        true
    }

    /// Appends a neuron without connections to hidden layer `layer`, unless that
    /// layer is already as wide as the input layer. Returns whether it grew.
    pub fn try_add_neuron(&mut self, layer: usize) -> (added: bool)
        requires
            old(self).wf(),
            1 <= layer < old(self).layer_count(),
        ensures
            final(self).wf(),
            added == (old(self).layer_len(layer as int) < old(self).layer_len(0)),
            !added ==> *final(self) == *old(self),
            added ==> old(self).gains_neuron(*final(self), layer as int),
    {
        if self.layers[layer].len() >= self.layers[0].len() {
            return false;
        }
        let ghost prev = *self;
        self.layers[layer].push(Neuron { connections: Vec::new() });
        proof {
            assert forall|i: int, j: int|
                #![trigger self.conns(i, j)]
                prev.is_neuron(i, j) implies self.conns(i, j) == prev.conns(i, j) by {
                if i == layer {
                    assert(self.layers@[i]@[j] == prev.layers@[i]@[j]);
                }
            }
            assert(self.conns(layer as int, prev.layer_len(layer as int) as int).len() == 0);
            assert forall|i: int| 0 <= i < self.layer_count() && i != layer implies #[trigger] self.layer_len(i)
                == prev.layer_len(i) by {}
            assert forall|i: int, j: int, k: int|
                self.is_neuron(i, j) && 0 <= k < self.conns(i, j).len() implies self.target_ok(
                i,
                #[trigger] self.conns(i, j)[k].target,
            ) by {
                assert(prev.is_neuron(i, j));
                assert(prev.target_ok(i, prev.conns(i, j)[k].target));
            }
            assert forall|i: int, j: int, k1: int, k2: int|
                self.is_neuron(i, j) && 0 <= k1 < self.conns(i, j).len() && 0 <= k2 < self.conns(
                    i,
                    j,
                ).len() && k1 != k2 implies #[trigger] self.conns(i, j)[k1].target
                != #[trigger] self.conns(i, j)[k2].target by {
                assert(prev.is_neuron(i, j));
            }
        }
        true
    }

    /// Replaces the weight of the `index`-th connection of a neuron; its
    /// target stays.
    pub fn set_weight(&mut self, layer: usize, neuron: usize, index: usize, weight: W)
        requires
            old(self).wf(),
            old(self).is_neuron(layer as int, neuron as int),
            index < old(self).conns(layer as int, neuron as int).len(),
        ensures
            final(self).wf(),
            old(self).reweighs(*final(self), layer as int, neuron as int, index as int, weight),
    {
        let ghost prev = *self;
        let target = self.layers[layer][neuron].connections[index].target;
        self.layers[layer][neuron].connections.set(index, Connection { target, weight });
        proof {
            assert forall|i: int, j: int|
                #![trigger self.conns(i, j)]
                prev.is_neuron(i, j) && (i, j) != (layer as int, neuron as int) implies self.conns(i, j)
                == prev.conns(i, j) by {}
            assert forall|i: int| 0 <= i < self.layer_count() implies #[trigger] self.layer_len(i)
                == prev.layer_len(i) by {}
            assert forall|i: int, j: int, k: int|
                self.is_neuron(i, j) && 0 <= k < self.conns(i, j).len() implies self.conns(i, j)[k].target
                == prev.conns(i, j)[k].target by {
                assert(prev.is_neuron(i, j));
            }
        }
    }

    /// A deep copy of the network.
    pub fn duplicate(&self) -> (r: Self)
        ensures
            self.same_as(r),
    {
        let mut layers: Vec<Vec<Neuron<W>>> = Vec::new();
        let mut i: usize = 0;
        while i < self.layers.len()
            invariant
                i <= self.layers@.len(),
                layers@.len() == i,
                forall|l: int| 0 <= l < i ==> (#[trigger] layers@[l])@.len() == self.layers@[l]@.len(),
                forall|l: int, m: int|
                    0 <= l < i && 0 <= m < self.layers@[l]@.len() ==> (#[trigger] layers@[l]@[m]).connections@
                        == self.layers@[l]@[m].connections@,
            decreases self.layers@.len() - i,
        {
            layers.push(copy_layer(&self.layers[i]));
            i = i + 1;
        }
        let r = NeuralNetwork { layers, output_count: self.output_count, mutations: self.mutations };
        proof {
            assert forall|l: int| 0 <= l < self.layer_count() implies #[trigger] r.layer_len(l) == self.layer_len(l) by {}
            assert forall|a: int, b: int| #![trigger r.conns(a, b)] self.is_neuron(a, b) implies r.conns(a, b) == self.conns(a, b) by {}
        }
        r
    }

    /// A network with `inputs` neurons in its input layer, `max_layers` empty
    /// hidden layers after it, `outputs` outputs and no connections.
    pub fn new(inputs: usize, outputs: usize, max_layers: usize, mutations: usize) -> (r: Self)
        requires
            max_layers < usize::MAX,
        ensures
            r.wf(),
            r.layer_count() == max_layers + 1,
            r.layer_len(0) == inputs,
            forall|i: int| 1 <= i < r.layer_count() ==> #[trigger] r.layer_len(i) == 0,
            forall|j: int| 0 <= j < inputs ==> #[trigger] r.conns(0, j).len() == 0,
            r.outputs() == outputs,
            r.mutation_count() == mutations,
    {
        let mut input_layer: Vec<Neuron<W>> = Vec::new();
        let mut j: usize = 0;
        while j < inputs
            invariant
                j <= inputs,
                input_layer@.len() == j,
                forall|m: int| 0 <= m < j ==> (#[trigger] input_layer@[m]).connections@.len() == 0,
            decreases inputs - j,
        {
            input_layer.push(Neuron { connections: Vec::new() });
            j = j + 1;
        }
        let mut layers: Vec<Vec<Neuron<W>>> = Vec::with_capacity(max_layers + 1);
        layers.push(input_layer);
        let mut i: usize = 0;
        while i < max_layers
            invariant
                i <= max_layers,
                layers@.len() == i + 1,
                layers@[0]@.len() == inputs,
                forall|m: int| 0 <= m < inputs ==> (#[trigger] layers@[0]@[m]).connections@.len() == 0,
                forall|l: int| 1 <= l <= i ==> (#[trigger] layers@[l])@.len() == 0,
            decreases max_layers - i,
        {
            layers.push(Vec::new());
            i = i + 1;
        }
        NeuralNetwork { layers, output_count: outputs, mutations }
    }
}

fn copy_connections<W: Copy>(v: &Vec<Connection<W>>) -> (r: Vec<Connection<W>>)
    ensures
        r@ == v@,
{
    let mut r: Vec<Connection<W>> = Vec::new();
    let mut k: usize = 0;
    while k < v.len()
        invariant
            k <= v@.len(),
            r@ == v@.subrange(0, k as int),
        decreases v@.len() - k,
    {
        r.push(v[k]);
        k = k + 1;
    }
    assert(v@.subrange(0, v@.len() as int) == v@);
    r
}

fn copy_layer<W: Copy>(layer: &Vec<Neuron<W>>) -> (r: Vec<Neuron<W>>)
    ensures
        r@.len() == layer@.len(),
        forall|m: int| 0 <= m < layer@.len() ==> (#[trigger] r@[m]).connections@ == layer@[m].connections@,
{
    let mut r: Vec<Neuron<W>> = Vec::new();
    let mut m: usize = 0;
    while m < layer.len()
        invariant
            m <= layer@.len(),
            r@.len() == m,
            forall|q: int| 0 <= q < m ==> (#[trigger] r@[q]).connections@ == layer@[q].connections@,
        decreases layer@.len() - m,
    {
        r.push(Neuron { connections: copy_connections(&layer[m].connections) });
        m = m + 1;
    }
    r
}

} // verus!
