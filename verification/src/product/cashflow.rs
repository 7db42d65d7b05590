//! The shape of a cashflow buffer: one amount for each state, kind of
//! cashflow and step.
use vstd::prelude::*;

verus! {

/// The number of a kind of cashflow.
#[derive(Clone, Copy, Debug, PartialEq, Eq, Hash, PartialOrd, Ord)]
pub struct CashflowKindId(pub usize);

/// A buffer was asked for with a dimension of zero, with storage that is not
/// of the length that its dimensions fix, or with more entries than can be
/// addressed.
#[derive(Debug, Clone, Copy, PartialEq, Eq)]
pub struct CashflowBufferError;

/// The dimensions of a cashflow buffer. The amounts lie state by state, in a
/// state kind by kind, in a kind step by step.
#[derive(Debug, Clone, Copy)]
pub struct CashflowShape {
    n_states: usize,
    n_kinds: usize,
    steps: usize,
}

/// The number of amounts in a buffer of the given dimensions.
pub open spec fn amounts_len(n_states: nat, n_kinds: nat, steps: nat) -> nat {
    n_states * n_kinds * steps
}

/// The place of the amount of the given state, kind and step.
pub open spec fn amount_offset(n_kinds: nat, steps: nat, state: nat, kind: nat, step: nat) -> nat {
    (state * n_kinds + kind) * steps + step
}

/// Every amount has a place inside the buffer.
pub proof fn lemma_offset_in_range(
    n_states: nat,
    n_kinds: nat,
    steps: nat,
    state: nat,
    kind: nat,
    step: nat,
)
    requires
        state < n_states,
        kind < n_kinds,
        step < steps,
    ensures
        state * n_kinds + kind < n_states * n_kinds,
        amount_offset(n_kinds, steps, state, kind, step) < amounts_len(n_states, n_kinds, steps),
{
    let row = state * n_kinds + kind;
    assert(row + 1 <= n_states * n_kinds) by (nonlinear_arith)
        requires
            row == state * n_kinds + kind,
            state + 1 <= n_states,
            kind + 1 <= n_kinds,
    ;
    assert(row * steps + step < (n_states * n_kinds) * steps) by (nonlinear_arith)
        requires
            row + 1 <= n_states * n_kinds,
            step < steps,
    ;
}

/// Two amounts share a place only where they are the same amount.
pub proof fn lemma_offset_injective(
    n_kinds: nat,
    steps: nat,
    state: nat,
    kind: nat,
    step: nat,
    state2: nat,
    kind2: nat,
    step2: nat,
)
    requires
        kind < n_kinds,
        kind2 < n_kinds,
        step < steps,
        step2 < steps,
        amount_offset(n_kinds, steps, state, kind, step) == amount_offset(
            n_kinds,
            steps,
            state2,
            kind2,
            step2,
        ),
    ensures
        state == state2 && kind == kind2 && step == step2,
{
    let row = state * n_kinds + kind;
    let row2 = state2 * n_kinds + kind2;
    assert(row == row2) by (nonlinear_arith)
        requires
            row * steps + step == row2 * steps + step2,
            step < steps,
            step2 < steps,
    ;
    assert(state == state2) by (nonlinear_arith)
        requires
            state * n_kinds + kind == state2 * n_kinds + kind2,
            kind < n_kinds,
            kind2 < n_kinds,
    ;
    assert(kind == kind2) by (nonlinear_arith)
        requires
            state * n_kinds + kind == state2 * n_kinds + kind2,
            state == state2,
    ;
}

impl CashflowShape {
    #[verifier::type_invariant]
    spec fn addressable(self) -> bool {
        self.n_states > 0 && self.n_kinds > 0 && self.steps > 0 && amounts_len(
            self.n_states as nat,
            self.n_kinds as nat,
            self.steps as nat,
        ) <= usize::MAX
    }

    /// The number of states.
    pub closed spec fn states(&self) -> nat {
        self.n_states as nat
    }

    /// The number of kinds of cashflow.
    pub closed spec fn kinds(&self) -> nat {
        self.n_kinds as nat
    }

    /// The number of steps.
    pub closed spec fn step_count(&self) -> nat {
        self.steps as nat
    }

    /// The shape of a buffer of the given dimensions. Fails where one of
    /// them is zero, or where the buffer would have more amounts than can
    /// be addressed.
    pub fn new(n_states: usize, n_kinds: usize, steps: usize) -> (r: Result<
        Self,
        CashflowBufferError,
    >)
        ensures
            r is Ok <==> n_states > 0 && n_kinds > 0 && steps > 0 && amounts_len(
                n_states as nat,
                n_kinds as nat,
                steps as nat,
            ) <= usize::MAX,
            r is Ok ==> r->Ok_0.states() == n_states && r->Ok_0.kinds() == n_kinds
                && r->Ok_0.step_count() == steps,
    {
        if n_states == 0 || n_kinds == 0 || steps == 0 {
            return Err(CashflowBufferError);
        }
        let rows = match n_states.checked_mul(n_kinds) {
            Some(v) => v,
            None => {
                proof {
                    assert(n_states * n_kinds * steps >= n_states * n_kinds) by (nonlinear_arith)
                        requires
                            steps >= 1,
                            n_states * n_kinds >= 0,
                    ;
                }
                return Err(CashflowBufferError);
            },
        };
        match rows.checked_mul(steps) {
            Some(_) => Ok(Self { n_states, n_kinds, steps }),
            None => Err(CashflowBufferError),
        }
    }

    /// The shape of a buffer made of existing storage: as `new`, and the
    /// number of amounts must be the one that the dimensions fix.
    pub fn from_parts(n_states: usize, n_kinds: usize, steps: usize, amounts_len: usize) -> (r:
        Result<Self, CashflowBufferError>)
        ensures
            r is Ok <==> n_states > 0 && n_kinds > 0 && steps > 0 && self::amounts_len(
                n_states as nat,
                n_kinds as nat,
                steps as nat,
            ) == amounts_len,
            r is Ok ==> r->Ok_0.states() == n_states && r->Ok_0.kinds() == n_kinds
                && r->Ok_0.step_count() == steps,
    {
        match Self::new(n_states, n_kinds, steps) {
            Ok(shape) => {
                if shape.len() != amounts_len {
                    return Err(CashflowBufferError);
                }
                Ok(shape)
            },
            Err(e) => Err(e),
        }
    }

    /// The number of states.
    pub fn n_states(&self) -> (r: usize)
        ensures
            r == self.states(),
    {
        self.n_states
    }

    /// The number of kinds of cashflow.
    pub fn n_kinds(&self) -> (r: usize)
        ensures
            r == self.kinds(),
    {
        self.n_kinds
    }

    /// The number of steps.
    pub fn len_steps(&self) -> (r: usize)
        ensures
            r == self.step_count(),
    {
        self.steps
    }

    /// The number of amounts.
    pub fn len(&self) -> (r: usize)
        ensures
            r == amounts_len(self.states(), self.kinds(), self.step_count()),
    {
        proof {
            use_type_invariant(self);
            assert(self.n_states * self.n_kinds <= self.n_states * self.n_kinds * self.steps)
                by (nonlinear_arith)
                requires
                    self.steps >= 1,
                    self.n_states * self.n_kinds >= 0,
            ;
        }
        self.n_states * self.n_kinds * self.steps
    }

    /// The place of the amount of the given state, kind and step, which lies
    /// inside the buffer.
    pub fn offset(&self, state: usize, kind: usize, step: usize) -> (r: usize)
        requires
            state < self.states(),
            kind < self.kinds(),
            step < self.step_count(),
        ensures
            r == amount_offset(self.kinds(), self.step_count(), state as nat, kind as nat, step as nat),
            r < amounts_len(self.states(), self.kinds(), self.step_count()),
    {
        proof {
            use_type_invariant(self);
            lemma_offset_in_range(
                self.n_states as nat,
                self.n_kinds as nat,
                self.steps as nat,
                state as nat,
                kind as nat,
                step as nat,
            );
            let rows = self.n_states * self.n_kinds;
            assert(rows <= rows * self.steps) by (nonlinear_arith)
                requires
                    self.steps >= 1,
                    rows >= 0,
            ;
            let row = state * self.n_kinds + kind;
            assert(state * self.n_kinds >= 0 && row * self.steps >= 0 && row * self.steps
                <= rows * self.steps) by (nonlinear_arith)
                requires
                    row == state * self.n_kinds + kind,
                    row < rows,
                    self.steps >= 1,
                    self.n_kinds >= 1,
            ;
        }
        (state * self.n_kinds + kind) * self.steps + step
    }
}

} // verus!
