//! A circuit builder: wires are numbered, every gate writes a fresh wire.
//!
//! The meaning of a circuit is the set of wire assignments that it accepts:
//! an assignment `w` (wire number to bit) is accepted when the two constant
//! wires hold `false` and `true` and the output wire of every gate holds its
//! function of its input wires.

use vstd::prelude::*;

verus! {

/// A gate: `Add(a, b, c)` writes `a XOR b` to wire `c`, `Mul(a, b, c)` writes
/// `a AND b`, `Or(a, b, c)` writes `a OR b`.
#[derive(Debug, Clone, Copy, PartialEq, Eq)]
pub enum Operation {
    Add(usize, usize, usize),
    Mul(usize, usize, usize),
    Or(usize, usize, usize),
}

/// Whether the assignment `w` meets `op`.
pub open spec fn op_holds(op: Operation, w: Seq<bool>) -> bool {
    match op {
        Operation::Add(a, b, c) => w[c as int] == (w[a as int] != w[b as int]),
        Operation::Mul(a, b, c) => w[c as int] == (w[a as int] && w[b as int]),
        Operation::Or(a, b, c) => w[c as int] == (w[a as int] || w[b as int]),
    }
}

/// Whether the assignment `w` meets every gate of `gates`.
pub open spec fn gates_hold(gates: Seq<Operation>, w: Seq<bool>) -> bool {
    forall|i: int| 0 <= i < gates.len() ==> op_holds(#[trigger] gates[i], w)
}

/// The wire a gate writes.
pub open spec fn op_out(op: Operation) -> usize {
    match op {
        Operation::Add(_, _, c) => c,
        Operation::Mul(_, _, c) => c,
        Operation::Or(_, _, c) => c,
    }
}

/// Whether both input wires of a gate come before its output wire.
pub open spec fn op_inputs_before(op: Operation) -> bool {
    match op {
        Operation::Add(a, b, c) => a < c && b < c,
        Operation::Mul(a, b, c) => a < c && b < c,
        Operation::Or(a, b, c) => a < c && b < c,
    }
}

/// `gates` form a straight-line circuit over `n` wires with inputs `inputs`:
/// every gate writes a wire numbered above its own inputs and above the
/// outputs of the gates before it, never a constant or an input wire; the
/// inputs are increasing and neither constant.
pub open spec fn gates_wf(gates: Seq<Operation>, inputs: Seq<usize>, n: nat) -> bool {
    &&& 2 <= n
    &&& forall|i: int| 0 <= i < inputs.len() ==> 2 <= #[trigger] inputs[i] < n
    &&& forall|i: int, j: int| 0 <= i < j < inputs.len() ==> inputs[i] < inputs[j]
    &&& forall|i: int|
        0 <= i < gates.len() ==> {
            &&& op_inputs_before(#[trigger] gates[i])
            &&& 2 <= op_out(gates[i]) < n
        }
    &&& forall|i: int, j: int| 0 <= i < j < gates.len() ==> op_out(gates[i]) < op_out(gates[j])
    &&& forall|i: int, j: int|
        0 <= i < inputs.len() && 0 <= j < gates.len() ==> inputs[i] != op_out(gates[j])
}

/// Something that emits gates. `wire_count` is the number of wires allocated
/// so far (wire numbers run below it); `sat(w)` says that the assignment `w`
/// is accepted by everything emitted so far; `inputs` are the free input
/// wires, which emitting gates leaves alone; `gate_list` is the gates emitted
/// so far, to which each gate method appends one; `const_zero` and
/// `const_one` are the wires that `zero` and `one` hand out.
pub trait CircuitTrait: Sized {
    spec fn wire_count(&self) -> nat;

    spec fn sat(&self, w: Seq<bool>) -> bool;

    spec fn inputs(&self) -> Seq<usize>;

    spec fn gate_list(&self) -> Seq<Operation>;

    spec fn const_zero(&self) -> usize;

    spec fn const_one(&self) -> usize;

    /// A wire that holds `false`.
    fn zero(&mut self) -> (r: usize)
        ensures
            final(self).wire_count() == old(self).wire_count(),
            final(self).inputs() == old(self).inputs(),
            final(self).const_zero() == old(self).const_zero(),
            final(self).const_one() == old(self).const_one(),
            forall|w: Seq<bool>| #[trigger] final(self).sat(w) ==> old(self).sat(w),
            r < final(self).wire_count(),
            final(self).gate_list() == old(self).gate_list(),
            r == old(self).const_zero(),
            forall|w: Seq<bool>| #[trigger] final(self).sat(w) ==> !w[r as int],
    ;

    /// A wire that holds `true`.
    fn one(&mut self) -> (r: usize)
        ensures
            final(self).wire_count() == old(self).wire_count(),
            final(self).inputs() == old(self).inputs(),
            final(self).const_zero() == old(self).const_zero(),
            final(self).const_one() == old(self).const_one(),
            forall|w: Seq<bool>| #[trigger] final(self).sat(w) ==> old(self).sat(w),
            r < final(self).wire_count(),
            final(self).gate_list() == old(self).gate_list(),
            r == old(self).const_one(),
            forall|w: Seq<bool>| #[trigger] final(self).sat(w) ==> w[r as int],
    ;

    /// A wire that holds `a XOR b`.
    fn xor_wire(&mut self, a: usize, b: usize) -> (r: usize)
        requires
            old(self).wire_count() < usize::MAX,
            a < old(self).wire_count(),
            b < old(self).wire_count(),
        ensures
            final(self).wire_count() == old(self).wire_count() + 1,
            r == old(self).wire_count(),
            final(self).inputs() == old(self).inputs(),
            final(self).const_zero() == old(self).const_zero(),
            final(self).const_one() == old(self).const_one(),
            forall|w: Seq<bool>| #[trigger] final(self).sat(w) ==> old(self).sat(w),
            r < final(self).wire_count(),
            final(self).gate_list() == old(self).gate_list().push(Operation::Add(a, b, r)),
            forall|w: Seq<bool>| #[trigger]
                final(self).sat(w) ==> w[r as int] == (w[a as int] != w[b as int]),
    ;

    /// A wire that holds `a AND b`.
    fn and_wire(&mut self, a: usize, b: usize) -> (r: usize)
        requires
            old(self).wire_count() < usize::MAX,
            a < old(self).wire_count(),
            b < old(self).wire_count(),
        ensures
            final(self).wire_count() == old(self).wire_count() + 1,
            r == old(self).wire_count(),
            final(self).inputs() == old(self).inputs(),
            final(self).const_zero() == old(self).const_zero(),
            final(self).const_one() == old(self).const_one(),
            forall|w: Seq<bool>| #[trigger] final(self).sat(w) ==> old(self).sat(w),
            r < final(self).wire_count(),
            final(self).gate_list() == old(self).gate_list().push(Operation::Mul(a, b, r)),
            forall|w: Seq<bool>| #[trigger]
                final(self).sat(w) ==> w[r as int] == (w[a as int] && w[b as int]),
    ;

    /// A wire that holds `a OR b`.
    fn or_wire(&mut self, a: usize, b: usize) -> (r: usize)
        requires
            old(self).wire_count() < usize::MAX,
            a < old(self).wire_count(),
            b < old(self).wire_count(),
        ensures
            final(self).wire_count() == old(self).wire_count() + 1,
            r == old(self).wire_count(),
            final(self).inputs() == old(self).inputs(),
            final(self).const_zero() == old(self).const_zero(),
            final(self).const_one() == old(self).const_one(),
            forall|w: Seq<bool>| #[trigger] final(self).sat(w) ==> old(self).sat(w),
            r < final(self).wire_count(),
            final(self).gate_list() == old(self).gate_list().push(Operation::Or(a, b, r)),
            forall|w: Seq<bool>| #[trigger]
                final(self).sat(w) ==> w[r as int] == (w[a as int] || w[b as int]),
    ;
}

/// At least `n` more wires can still be numbered.
pub open spec fn room<T: CircuitTrait>(b: T, n: nat) -> bool {
    b.wire_count() + n <= usize::MAX
}

/// `after` was obtained from `before` by adding at most `n` wires and only
/// more constraints: every assignment that `after` accepts, `before` accepts;
/// the inputs and constant wires stay; the old gates stay, in order, at the
/// front of the list of gates.
pub open spec fn grows<T: CircuitTrait>(before: T, after: T, n: nat) -> bool {
    &&& before.wire_count() <= after.wire_count() <= before.wire_count() + n
    &&& forall|w: Seq<bool>| #[trigger] after.sat(w) ==> before.sat(w)
    &&& after.inputs() == before.inputs()
    &&& after.const_zero() == before.const_zero()
    &&& after.const_one() == before.const_one()
    &&& before.gate_list().len() <= after.gate_list().len()
    &&& forall|i: int|
        0 <= i < before.gate_list().len() ==> #[trigger] after.gate_list()[i] == before.gate_list()[i]
}

/// `after` has exactly `g` more gates than `before`, and `g` more wires: one
/// new wire for each new gate.
pub open spec fn appends<T: CircuitTrait>(before: T, after: T, g: nat) -> bool {
    &&& after.gate_list().len() == before.gate_list().len() + g
    &&& after.wire_count() == before.wire_count() + g
}

/// Wire 0 always holds `false`.
pub const ZERO_WIRE: usize = 0;

/// Wire 1 always holds `true`.
pub const ONE_WIRE: usize = 1;

/// The builder that records the gates in a list. Wires 0 and 1 are the
/// constants; input wires are handed out by `fresh`; every gate's output is
/// a new wire numbered above all earlier ones.
pub struct CircuitAdapter {
    gates: Vec<Operation>,
    inputs: Vec<usize>,
    next: usize,
}

impl CircuitAdapter {
    /// The gates emitted so far, in order.
    pub closed spec fn gate_seq(&self) -> Seq<Operation> {
        self.gates@
    }

    /// The input wires handed out so far, in order.
    pub closed spec fn input_seq(&self) -> Seq<usize> {
        self.inputs@
    }

    #[verifier::type_invariant]
    closed spec fn wf(self) -> bool {
        gates_wf(self.gates@, self.inputs@, self.next as nat)
    }

    /// Hands out `N` new input wires, numbered consecutively.
    pub fn fresh<const N: usize>(&mut self) -> (r: [usize; N])
        requires
            old(self).wire_count() + N <= usize::MAX,
        ensures
            final(self).wire_count() == old(self).wire_count() + N,
            forall|i: int| 0 <= i < N ==> r[i] == old(self).wire_count() + i,
            final(self).input_seq() == old(self).input_seq() + r@,
            final(self).gate_seq() == old(self).gate_seq(),
    {
        proof {
            use_type_invariant(&*self);
        }
        let mut r: [usize; N] = [0usize; N];
        let start = self.next;
        let mut i: usize = 0;
        while i < N
            invariant
                0 <= i <= N,
                start == old(self).next,
                start + N <= usize::MAX,
                self.next == start + i,
                self.gates@ == old(self).gates@,
                self.inputs@ == old(self).inputs@ + r@.take(i as int),
                r@.len() == N,
                forall|j: int| 0 <= j < i ==> r[j] == start + j,
            decreases N - i,
        {
            proof {
                use_type_invariant(&*self);
            }
            let c = self.next;
            r[i] = c;
            self.next = c + 1;
            let mut inputs = Vec::new();
            std::mem::swap(&mut inputs, &mut self.inputs);
            inputs.push(c);
            self.inputs = inputs;
            assert(self.inputs@ =~= old(self).inputs@ + r@.take(i + 1));
            i = i + 1;
        }
        assert(r@.take(N as int) =~= r@);
        r
    }

    /// The number of the next wire to be allocated.
    pub fn next_wire(&self) -> (r: usize)
        ensures
            r == self.wire_count(),
    {
        self.next
    }

    /// The gates emitted so far.
    pub fn get_gates(&self) -> (r: &Vec<Operation>)
        ensures
            r@ == self.gate_seq(),
    {
        &self.gates
    }

    /// Takes the builder apart into its gates.
    pub fn into_gates(self) -> (r: Vec<Operation>)
        ensures
            r@ == self.gate_seq(),
            gates_wf(r@, self.input_seq(), self.wire_count()),
    {
        proof {
            use_type_invariant(&self);
        }
        self.gates
    }
}

impl Default for CircuitAdapter {
    /// A builder with only the two constant wires.
    fn default() -> (r: Self)
        ensures
            r.wire_count() == 2,
            r.gate_seq() == Seq::<Operation>::empty(),
            r.input_seq() == Seq::<usize>::empty(),
    {
        CircuitAdapter { gates: Vec::new(), inputs: Vec::new(), next: 2 }
    }
}

impl CircuitAdapter {
    /// Evaluates the circuit: the input wires take the bits of `witness` in the
    /// order in which `fresh` handed them out. The result gives every wire's
    /// bit, and the circuit accepts it.
    pub fn eval_gates(&self, witness: &Vec<bool>) -> (r: Vec<bool>)
        requires
            witness.len() == self.input_seq().len(),
        ensures
            r.len() == self.wire_count(),
            self.sat(r@),
            forall|k: int|
                0 <= k < witness.len() ==> r[#[trigger] self.input_seq()[k] as int] == witness[k],
    {
        proof {
            use_type_invariant(self);
        }
        let mut w: Vec<bool> = Vec::new();
        let mut i: usize = 0;
        while i < self.next
            invariant
                self.wf(),
                w.len() == i,
                i <= self.next,
                forall|j: int| 0 <= j < i ==> !w[j],
            decreases self.next - i,
        {
            w.push(false);
            i = i + 1;
        }
        w.set(ONE_WIRE, true);
        let mut k: usize = 0;
        while k < self.inputs.len()
            invariant
                self.wf(),
                witness.len() == self.inputs@.len(),
                w.len() == self.next,
                k <= self.inputs.len(),
                !w[ZERO_WIRE as int],
                w[ONE_WIRE as int],
                forall|j: int| 0 <= j < k ==> w[#[trigger] self.inputs@[j] as int] == witness[j],
            decreases self.inputs.len() - k,
        {
            let c = self.inputs[k];
            w.set(c, witness[k]);
            proof {
                assert forall|j: int| 0 <= j < k + 1 implies w[#[trigger] self.inputs@[j] as int]
                    == witness[j] by {
                    if j < k {
                        assert(self.inputs@[j] < self.inputs@[k as int]);
                    }
                }
            }
            k = k + 1;
        }
        let mut g: usize = 0;
        while g < self.gates.len()
            invariant
                self.wf(),
                witness.len() == self.inputs@.len(),
                w.len() == self.next,
                g <= self.gates.len(),
                !w[ZERO_WIRE as int],
                w[ONE_WIRE as int],
                forall|j: int|
                    0 <= j < self.inputs@.len() ==> w[#[trigger] self.inputs@[j] as int]
                        == witness[j],
                forall|j: int| 0 <= j < g ==> op_holds(#[trigger] self.gates@[j], w@),
            decreases self.gates.len() - g,
        {
            let op = self.gates[g];
            let ghost w0 = w@;
            let c = match op {
                Operation::Add(a, b, c) => {
                    let v = w[a] != w[b];
                    w.set(c, v);
                    c
                },
                Operation::Mul(a, b, c) => {
                    let v = w[a] && w[b];
                    w.set(c, v);
                    c
                },
                Operation::Or(a, b, c) => {
                    let v = w[a] || w[b];
                    w.set(c, v);
                    c
                },
            };
            proof {
                assert(c == op_out(self.gates@[g as int]));
                assert(w@ == w0.update(c as int, w@[c as int]));
                assert forall|j: int| 0 <= j < g + 1 implies op_holds(#[trigger] self.gates@[j], w@) by {
                    if j < g {
                        assert(op_out(self.gates@[j]) < op_out(self.gates@[g as int]));
                        assert(op_inputs_before(self.gates@[j]));
                        assert(op_holds(self.gates@[j], w0));
                    }
                }
                assert forall|j: int| 0 <= j < self.inputs@.len() implies w[#[trigger] self.inputs@[j] as int]
                    == witness[j] by {
                    assert(self.inputs@[j] != op_out(self.gates@[g as int]));
                }
            }
            g = g + 1;
        }
        w
    }
}

impl CircuitTrait for CircuitAdapter {
    closed spec fn wire_count(&self) -> nat {
        self.next as nat
    }

    open spec fn sat(&self, w: Seq<bool>) -> bool {
        &&& !w[ZERO_WIRE as int]
        &&& w[ONE_WIRE as int]
        &&& gates_hold(self.gate_seq(), w)
    }

    open spec fn inputs(&self) -> Seq<usize> {
        self.input_seq()
    }

    open spec fn gate_list(&self) -> Seq<Operation> {
        self.gate_seq()
    }

    open spec fn const_zero(&self) -> usize {
        ZERO_WIRE
    }

    open spec fn const_one(&self) -> usize {
        ONE_WIRE
    }

    fn zero(&mut self) -> (r: usize)
        ensures
            r == ZERO_WIRE,
            *final(self) == *old(self),
    {
        proof {
            use_type_invariant(&*self);
        }
        ZERO_WIRE
    }

    fn one(&mut self) -> (r: usize)
        ensures
            r == ONE_WIRE,
            *final(self) == *old(self),
    {
        proof {
            use_type_invariant(&*self);
        }
        ONE_WIRE
    }

    fn xor_wire(&mut self, a: usize, b: usize) -> (r: usize) {
        proof {
            use_type_invariant(&*self);
        }
        let c = self.next;
        self.next = c + 1;
        let mut gates = Vec::new();
        std::mem::swap(&mut gates, &mut self.gates);
        gates.push(Operation::Add(a, b, c));
        self.gates = gates;
        proof {
            lemma_push_holds(old(self).gates@, Operation::Add(a, b, c));
        }
        c
    }

    fn and_wire(&mut self, a: usize, b: usize) -> (r: usize) {
        proof {
            use_type_invariant(&*self);
        }
        let c = self.next;
        self.next = c + 1;
        let mut gates = Vec::new();
        std::mem::swap(&mut gates, &mut self.gates);
        gates.push(Operation::Mul(a, b, c));
        self.gates = gates;
        proof {
            lemma_push_holds(old(self).gates@, Operation::Mul(a, b, c));
        }
        c
    }

    fn or_wire(&mut self, a: usize, b: usize) -> (r: usize) {
        proof {
            use_type_invariant(&*self);
        }
        let c = self.next;
        self.next = c + 1;
        let mut gates = Vec::new();
        std::mem::swap(&mut gates, &mut self.gates);
        gates.push(Operation::Or(a, b, c));
        self.gates = gates;
        proof {
            lemma_push_holds(old(self).gates@, Operation::Or(a, b, c));
        }
        c
    }
}

proof fn lemma_push_holds(gates: Seq<Operation>, op: Operation)
    ensures
        forall|w: Seq<bool>| #[trigger]
            gates_hold(gates.push(op), w) ==> gates_hold(gates, w) && op_holds(op, w),
{
    assert forall|w: Seq<bool>| #[trigger] gates_hold(gates.push(op), w) implies gates_hold(gates, w)
        && op_holds(op, w) by {
        assert(gates.push(op)[gates.len() as int] == op);
        assert forall|i: int| 0 <= i < gates.len() implies op_holds(#[trigger] gates[i], w) by {
            assert(gates.push(op)[i] == gates[i]);
        }
    }
}


/// A circuit packaged for reuse: its input and output wires in a fixed order,
/// its gates, the range of wires its gates write, its constant wires, and its
/// gate counts (AND, XOR, OR).
pub struct Template {
    pub input_wires: Vec<usize>,
    pub output_wires: Vec<usize>,
    pub gates: Vec<Operation>,
    pub start_wire_idx: usize,
    pub end_wire_idx: usize,
    pub const_wire_one: usize,
    pub const_wire_zero: usize,
    pub stats: (usize, usize, usize),
}

/// The numbers of AND, XOR and OR gates in `gates`.
pub open spec fn gate_counts(gates: Seq<Operation>) -> (nat, nat, nat)
    decreases gates.len(),
{
    if gates.len() == 0 {
        (0, 0, 0)
    } else {
        let (a, x, o) = gate_counts(gates.drop_last());
        match gates.last() {
            Operation::Mul(_, _, _) => (a + 1, x, o),
            Operation::Add(_, _, _) => (a, x + 1, o),
            Operation::Or(_, _, _) => (a, x, o + 1),
        }
    }
}

/// Counts the AND, XOR and OR gates of `gates`.
pub fn count_gates(gates: &Vec<Operation>) -> (r: (usize, usize, usize))
    ensures
        (r.0 as nat, r.1 as nat, r.2 as nat) == gate_counts(gates@),
{
    let mut and_count: usize = 0;
    let mut xor_count: usize = 0;
    let mut or_count: usize = 0;
    let mut i: usize = 0;
    while i < gates.len()
        invariant
            i <= gates.len(),
            (and_count as nat, xor_count as nat, or_count as nat) == gate_counts(gates@.take(i as int)),
            and_count + xor_count + or_count == i,
        decreases gates.len() - i,
    {
        assert(gates@.take(i + 1).drop_last() =~= gates@.take(i as int));
        match gates[i] {
            Operation::Add(_, _, _) => {
                xor_count = xor_count + 1;
            },
            Operation::Mul(_, _, _) => {
                and_count = and_count + 1;
            },
            Operation::Or(_, _, _) => {
                or_count = or_count + 1;
            },
        }
        i = i + 1;
    }
    assert(gates@.take(gates.len() as int) =~= gates@);
    (and_count, xor_count, or_count)
}


/// The bit a gate computes from the assignment `w`.
pub open spec fn op_value(op: Operation, w: Seq<bool>) -> bool {
    match op {
        Operation::Add(a, b, _) => w[a as int] != w[b as int],
        Operation::Mul(a, b, _) => w[a as int] && w[b as int],
        Operation::Or(a, b, _) => w[a as int] || w[b as int],
    }
}

/// The assignment obtained by running `gates` in order, starting from `w0`.
pub open spec fn run_gates(gates: Seq<Operation>, w0: Seq<bool>) -> Seq<bool>
    decreases gates.len(),
{
    if gates.len() == 0 {
        w0
    } else {
        let w = run_gates(gates.drop_last(), w0);
        w.update(op_out(gates.last()) as int, op_value(gates.last(), w))
    }
}

/// The starting assignment over `n` wires: wire 1 is `true`, input wire
/// `inputs[k]` holds `witness[k]`, every other wire `false`.
pub open spec fn start_assignment(inputs: Seq<usize>, witness: Seq<bool>, n: nat) -> Seq<bool> {
    Seq::new(
        n,
        |i: int|
            if exists|k: int| 0 <= k < inputs.len() && inputs[k] == i {
                witness[choose|k: int| 0 <= k < inputs.len() && inputs[k] == i]
            } else {
                i == ONE_WIRE
            },
    )
}

/// Law: a well-formed gate list accepts, for any bits on its inputs, the
/// assignment obtained by running its gates in order.
pub proof fn lemma_gates_wf_accepts(gates: Seq<Operation>, inputs: Seq<usize>, witness: Seq<bool>, n: nat)
    requires
        gates_wf(gates, inputs, n),
        witness.len() == inputs.len(),
    ensures
        ({
            let w = run_gates(gates, start_assignment(inputs, witness, n));
            &&& w.len() == n
            &&& !w[ZERO_WIRE as int]
            &&& w[ONE_WIRE as int]
            &&& gates_hold(gates, w)
            &&& forall|k: int| 0 <= k < inputs.len() ==> w[#[trigger] inputs[k] as int] == witness[k]
        }),
    decreases gates.len(),
{
    let w0 = start_assignment(inputs, witness, n);
    if gates.len() == 0 {
        assert forall|k: int| 0 <= k < inputs.len() implies w0[#[trigger] inputs[k] as int] == witness[k] by {
            let i = inputs[k] as int;
            assert(exists|k2: int| 0 <= k2 < inputs.len() && inputs[k2] == i);
            let k2 = choose|k2: int| 0 <= k2 < inputs.len() && inputs[k2] == i;
            if k2 < k {
                assert(inputs[k2] < inputs[k]);
            } else if k < k2 {
                assert(inputs[k] < inputs[k2]);
            }
        }
    } else {
        let g1 = gates.drop_last();
        assert(gates_wf(g1, inputs, n)) by {
            assert forall|i: int| 0 <= i < g1.len() implies op_inputs_before(#[trigger] g1[i]) && 2 <= op_out(
                g1[i],
            ) < n by {
                assert(g1[i] == gates[i]);
            }
            assert forall|i: int, j: int| 0 <= i < j < g1.len() implies op_out(g1[i]) < op_out(g1[j]) by {
                assert(g1[i] == gates[i] && g1[j] == gates[j]);
            }
            assert forall|i: int, j: int| 0 <= i < inputs.len() && 0 <= j < g1.len() implies inputs[i]
                != op_out(g1[j]) by {
                assert(g1[j] == gates[j]);
            }
        }
        lemma_gates_wf_accepts(g1, inputs, witness, n);
        let w1 = run_gates(g1, w0);
        let last = gates.last();
        let c = op_out(last);
        let w = run_gates(gates, w0);
        assert(w == w1.update(c as int, op_value(last, w1)));
        assert(op_inputs_before(gates[gates.len() - 1]));
        assert forall|i: int| 0 <= i < gates.len() implies op_holds(#[trigger] gates[i], w) by {
            if i < gates.len() - 1 {
                assert(gates[i] == g1[i]);
                assert(op_holds(g1[i], w1));
                assert(op_out(gates[i]) < c);
                assert(op_inputs_before(gates[i]));
            }
        }
        assert forall|k: int| 0 <= k < inputs.len() implies w[#[trigger] inputs[k] as int] == witness[k] by {
            assert(inputs[k] != op_out(gates[gates.len() - 1]));
        }
    }
}

} // verus!
