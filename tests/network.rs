use ecosystem::{mutation_for, Mutation, NeuralNetwork, RunError, Target};

fn plus(a: f64, b: f64) -> f64 {
    a + b
}

fn times(a: f64, b: f64) -> f64 {
    a * b
}

fn eval(nn: &NeuralNetwork<f64>, inputs: Vec<f64>) -> Result<Vec<f64>, RunError> {
    nn.run(inputs, 0.0, &plus, &times)
}

fn chain(w1: f64, w2: f64) -> NeuralNetwork<f64> {
    let mut nn = NeuralNetwork::new(1, 1, 1, 1);
    assert!(nn.try_add_neuron(1));
    assert!(nn.try_add_connection(0, 0, Target::Neuron(1, 0), w1));
    assert!(nn.try_add_connection(1, 0, Target::Output(0), w2));
    nn
}

fn check_invariants(nn: &NeuralNetwork<f64>) {
    let inputs = nn.num_neurons(0);
    for layer in 0..nn.num_layers() {
        if layer > 0 {
            assert!(nn.num_neurons(layer) <= inputs);
        }
        for neuron in 0..nn.num_neurons(layer) {
            let count = nn.num_connections(layer, neuron);
            for a in 0..count {
                let t = nn.connection(layer, neuron, a).target;
                match t {
                    Target::Neuron(l, n) => {
                        assert!(l > layer);
                        assert!(l < nn.num_layers());
                        assert!(n < nn.num_neurons(l));
                    }
                    Target::Output(o) => assert!(o < nn.num_outputs()),
                }
                for b in 0..count {
                    if a != b {
                        assert_ne!(t, nn.connection(layer, neuron, b).target);
                    }
                }
            }
        }
    }
}

fn fresh() -> f64 {
    0.05
}

fn nudge(w: f64) -> f64 {
    w + 0.01
}

#[test]
fn simple_nn_run() {
    let mut nn = NeuralNetwork::new(1, 1, 0, 1);
    assert!(nn.try_add_connection(0, 0, Target::Output(0), 2.0));
    let res = eval(&nn, vec![1.]).unwrap();
    assert_eq!(res[0], 2.);
}

#[test]
fn layered_nn_run() {
    let nn = chain(2.0, 3.0);
    let res = eval(&nn, vec![1.]).unwrap();
    assert_eq!(res[0], 6.);
}

#[test]
fn direct_connection_multiplies() {
    for &(x, w) in &[(1.5, 2.0), (-3.0, 0.25), (0.0, 7.0), (4.0, -0.1)] {
        let mut nn = NeuralNetwork::new(1, 1, 0, 0);
        assert!(nn.try_add_connection(0, 0, Target::Output(0), w));
        assert_eq!(eval(&nn, vec![x]).unwrap(), vec![x * w]);
    }
}

#[test]
fn chain_multiplies_both_weights() {
    for &(x, w1, w2) in &[(1.0, 2.0, 3.0), (0.5, -4.0, 0.25), (-2.0, 1.5, -1.0)] {
        let nn = chain(w1, w2);
        assert_eq!(eval(&nn, vec![x]).unwrap(), vec![x * w1 * w2]);
    }
}

#[test]
fn wrong_input_count_fails() {
    let nn: NeuralNetwork<f64> = NeuralNetwork::new(2, 1, 1, 0);
    assert_eq!(eval(&nn, vec![]), Err(RunError::InvalidInputSize));
    assert_eq!(eval(&nn, vec![1.0]), Err(RunError::InvalidInputSize));
    assert_eq!(eval(&nn, vec![1.0, 2.0, 3.0]), Err(RunError::InvalidInputSize));
    assert_eq!(eval(&nn, vec![1.0, 2.0]), Ok(vec![0.0]));
}

#[test]
fn run_twice_gives_same_outputs() {
    let mut nn = chain(2.0, 3.0);
    assert!(nn.try_add_connection(0, 0, Target::Output(0), 0.5));
    let first = eval(&nn, vec![1.25]).unwrap();
    let second = eval(&nn, vec![1.25]).unwrap();
    assert_eq!(first, second);
    assert_eq!(first, vec![1.25 * 2.0 * 3.0 + 1.25 * 0.5]);
}

#[test]
fn two_inputs_wired_to_output() {
    let mut nn = NeuralNetwork::new(2, 1, 1, 0);
    assert!(nn.try_add_connection(0, 0, Target::Output(0), 2.0));
    assert_eq!(eval(&nn, vec![1.0, 0.0]).unwrap(), vec![2.0]);
}

#[test]
fn chain_scenario_gives_six() {
    let nn = chain(2.0, 3.0);
    assert_eq!(eval(&nn, vec![1.0]).unwrap(), vec![6.0]);
}

#[test]
fn outputs_sum_their_contributions() {
    let mut nn = NeuralNetwork::new(2, 2, 0, 0);
    assert!(nn.try_add_connection(0, 0, Target::Output(0), 2.0));
    assert!(nn.try_add_connection(0, 1, Target::Output(0), 3.0));
    assert!(nn.try_add_connection(0, 1, Target::Output(1), -1.0));
    assert_eq!(eval(&nn, vec![1.0, 2.0]).unwrap(), vec![8.0, -2.0]);
}

#[test]
fn new_has_requested_shape() {
    let nn: NeuralNetwork<f64> = NeuralNetwork::new(3, 2, 4, 5);
    assert_eq!(nn.num_layers(), 5);
    assert_eq!(nn.num_neurons(0), 3);
    for l in 1..5 {
        assert_eq!(nn.num_neurons(l), 0);
    }
    for n in 0..3 {
        assert_eq!(nn.num_connections(0, n), 0);
    }
    assert_eq!(nn.num_outputs(), 2);
    assert_eq!(nn.num_mutations(), 5);
}

#[test]
fn add_connection_refuses_backward_duplicate_and_missing_targets() {
    let mut nn = NeuralNetwork::new(2, 1, 2, 0);
    assert!(nn.try_add_neuron(1));
    assert!(!nn.try_add_connection(1, 0, Target::Neuron(0, 0), 1.0));
    assert!(!nn.try_add_connection(1, 0, Target::Neuron(1, 0), 1.0));
    assert!(!nn.try_add_connection(0, 0, Target::Neuron(2, 0), 1.0));
    assert!(!nn.try_add_connection(0, 0, Target::Neuron(3, 0), 1.0));
    assert!(!nn.try_add_connection(0, 0, Target::Output(1), 1.0));
    assert!(nn.try_add_connection(0, 0, Target::Neuron(1, 0), 1.0));
    assert!(!nn.try_add_connection(0, 0, Target::Neuron(1, 0), 2.0));
    assert!(nn.has_connection_to(0, 0, Target::Neuron(1, 0)));
    assert!(!nn.has_connection_to(0, 1, Target::Neuron(1, 0)));
    assert_eq!(nn.num_connections(0, 0), 1);
    assert_eq!(nn.connection(0, 0, 0).weight, 1.0);
}

#[test]
fn add_neuron_stops_at_input_width() {
    let mut nn: NeuralNetwork<f64> = NeuralNetwork::new(2, 1, 1, 0);
    assert!(nn.try_add_neuron(1));
    assert!(nn.try_add_neuron(1));
    assert!(!nn.try_add_neuron(1));
    assert_eq!(nn.num_neurons(1), 2);
}

#[test]
fn set_weight_keeps_target() {
    let mut nn = NeuralNetwork::new(1, 1, 0, 0);
    assert!(nn.try_add_connection(0, 0, Target::Output(0), 2.0));
    nn.set_weight(0, 0, 0, 5.0);
    assert_eq!(nn.connection(0, 0, 0).target, Target::Output(0));
    assert_eq!(eval(&nn, vec![2.0]).unwrap(), vec![10.0]);
}

#[test]
fn mutation_draw_ranges() {
    assert_eq!(mutation_for(0), Mutation::AddNeuron);
    assert_eq!(mutation_for(7), Mutation::AddNeuron);
    assert_eq!(mutation_for(8), Mutation::AddConnection);
    assert_eq!(mutation_for(71), Mutation::AddConnection);
    assert_eq!(mutation_for(72), Mutation::ShiftWeight);
    assert_eq!(mutation_for(255), Mutation::ShiftWeight);
    let counts = (0..=255u8).fold([0; 3], |mut c, b| {
        match mutation_for(b) {
            Mutation::AddNeuron => c[0] += 1,
            Mutation::AddConnection => c[1] += 1,
            Mutation::ShiftWeight => c[2] += 1,
        }
        c
    });
    assert_eq!(counts, [8, 64, 184]);
}

#[test]
fn repeated_add_connection_makes_no_duplicates() {
    let mut nn = NeuralNetwork::new(3, 2, 2, 0);
    for _ in 0..20 {
        nn.mutate_add_neuron();
    }
    for _ in 0..500 {
        nn.mutate_add_connection(&fresh);
        check_invariants(&nn);
    }
    assert!(nn.num_connections(0, 0) > 0);
}

#[test]
fn add_neuron_never_exceeds_input_width() {
    let mut nn: NeuralNetwork<f64> = NeuralNetwork::new(3, 1, 3, 0);
    for _ in 0..200 {
        nn.mutate_add_neuron();
        for l in 1..nn.num_layers() {
            assert!(nn.num_neurons(l) <= 3);
        }
    }
    for l in 1..nn.num_layers() {
        assert_eq!(nn.num_neurons(l), 3);
    }
}

#[test]
fn add_neuron_fills_single_hidden_layer() {
    let mut nn: NeuralNetwork<f64> = NeuralNetwork::new(2, 1, 1, 0);
    nn.mutate_add_neuron();
    assert_eq!(nn.num_neurons(1), 1);
    let mut flat: NeuralNetwork<f64> = NeuralNetwork::new(2, 1, 0, 0);
    flat.mutate_add_neuron();
    assert_eq!(flat.num_layers(), 1);
}

#[test]
fn shift_weight_applies_shift() {
    let mut nn = NeuralNetwork::new(1, 1, 0, 0);
    assert!(nn.try_add_connection(0, 0, Target::Output(0), 2.0));
    nn.mutate_shift_weight(&|w: f64| w + 1.0);
    assert_eq!(nn.connection(0, 0, 0).weight, 3.0);
    assert_eq!(nn.connection(0, 0, 0).target, Target::Output(0));
}

#[test]
fn child_leaves_parent_unchanged() {
    let mut parent = NeuralNetwork::new(2, 1, 2, 50);
    for _ in 0..5 {
        parent.mutate_add_neuron();
        parent.mutate_add_connection(&fresh);
    }
    let before = format!("{:?}", parent);
    let child = parent.child(&fresh, &nudge);
    assert_eq!(format!("{:?}", parent), before);
    assert_eq!(child.num_layers(), parent.num_layers());
    assert_eq!(child.num_neurons(0), parent.num_neurons(0));
    assert_eq!(child.num_outputs(), parent.num_outputs());
    assert_eq!(child.num_mutations(), 50);
    check_invariants(&child);
}

#[test]
fn child_without_mutations_is_a_copy() {
    let mut parent = NeuralNetwork::new(2, 1, 1, 0);
    assert!(parent.try_add_neuron(1));
    assert!(parent.try_add_connection(0, 1, Target::Neuron(1, 0), 0.5));
    assert!(parent.try_add_connection(1, 0, Target::Output(0), 4.0));
    let child = parent.child(&fresh, &nudge);
    assert_eq!(format!("{:?}", child), format!("{:?}", parent));
    let copy = parent.duplicate();
    assert_eq!(format!("{:?}", copy), format!("{:?}", parent));
    assert_eq!(eval(&child, vec![3.0, 1.0]).unwrap(), vec![2.0]);
}

#[test]
fn mutations_keep_network_feed_forward() {
    let mut nn = NeuralNetwork::new(3, 2, 3, 30);
    for _ in 0..20 {
        nn = nn.child(&fresh, &nudge);
        check_invariants(&nn);
        assert_eq!(nn.num_layers(), 4);
        assert_eq!(nn.num_neurons(0), 3);
        let out = eval(&nn, vec![1.0, -1.0, 0.5]).unwrap();
        assert_eq!(out.len(), 2);
    }
}

#[test]
fn apply_mutation_dispatches_on_operator() {
    let mut nn = NeuralNetwork::new(1, 1, 0, 0);
    assert!(nn.try_add_connection(0, 0, Target::Output(0), 2.0));
    nn.apply_mutation(Mutation::ShiftWeight, &fresh, &|w: f64| w * 10.0);
    assert_eq!(nn.connection(0, 0, 0).weight, 20.0);
    nn.apply_mutation(Mutation::AddConnection, &fresh, &nudge);
    assert_eq!(nn.num_connections(0, 0), 1);

    let mut wide: NeuralNetwork<f64> = NeuralNetwork::new(2, 1, 1, 0);
    wide.apply_mutation(Mutation::AddNeuron, &fresh, &nudge);
    assert_eq!(wide.num_neurons(1), 1);
}

#[test]
fn target_for_follows_the_draws() {
    let mut nn: NeuralNetwork<f64> = NeuralNetwork::new(2, 2, 2, 0);
    assert!(nn.try_add_neuron(1));
    assert_eq!(nn.target_for(0, true, 1, 0, 0), Some(Target::Output(1)));
    assert_eq!(nn.target_for(0, true, 2, 1, 0), None);
    assert_eq!(nn.target_for(0, false, 0, 1, 0), Some(Target::Neuron(1, 0)));
    assert_eq!(nn.target_for(0, false, 0, 1, 1), None);
    assert_eq!(nn.target_for(0, false, 0, 2, 0), None);
    assert_eq!(nn.target_for(1, false, 0, 1, 0), None);
    assert_eq!(nn.target_for(0, false, 0, 3, 0), None);
}

#[test]
fn add_neuron_succeeds_when_every_hidden_layer_has_room() {
    let mut nn: NeuralNetwork<f64> = NeuralNetwork::new(4, 1, 3, 0);
    for step in 1..=3 {
        nn.mutate_add_neuron();
        let total: usize = (1..nn.num_layers()).map(|l| nn.num_neurons(l)).sum();
        assert_eq!(total, step);
    }
}

#[test]
fn shift_succeeds_when_every_neuron_is_connected() {
    let mut nn = NeuralNetwork::new(2, 1, 0, 0);
    assert!(nn.try_add_connection(0, 0, Target::Output(0), 1.0));
    assert!(nn.try_add_connection(0, 1, Target::Output(0), 1.0));
    nn.mutate_shift_weight(&|w: f64| w + 1.0);
    let total = nn.connection(0, 0, 0).weight + nn.connection(0, 1, 0).weight;
    assert_eq!(total, 3.0);
}

#[test]
fn child_grows_by_at_most_one_per_attempt() {
    let parent: NeuralNetwork<f64> = NeuralNetwork::new(3, 2, 2, 7);
    let child = parent.child(&fresh, &nudge);
    let mut grown = 0;
    for l in 0..child.num_layers() {
        grown += child.num_neurons(l) - parent.num_neurons(l);
        for n in 0..child.num_neurons(l) {
            grown += child.num_connections(l, n);
        }
    }
    assert!(grown <= 7);
}
