//! The layout of the data that a product requires: so many scalars for each
//! policy, so many vectors with one entry for each state.
use vstd::prelude::*;

verus! {

/// A layout was asked for that holds nothing.
#[derive(Debug, Clone, Copy, PartialEq, Eq)]
pub struct RequiredDataLayoutError;

/// Fixed required data dimensions for a product.
#[derive(Debug, Clone, Copy, PartialEq, Eq)]
pub struct RequiredDataLayout {
    policy_scalars: usize,
    state_vectors: usize,
}

impl RequiredDataLayout {
    #[verifier::type_invariant]
    spec fn holds_something(self) -> bool {
        self.policy_scalars > 0 || self.state_vectors > 0
    }

    /// The number of scalars for each policy.
    pub closed spec fn scalars(&self) -> nat {
        self.policy_scalars as nat
    }

    /// The number of vectors with one entry for each state.
    pub closed spec fn vectors(&self) -> nat {
        self.state_vectors as nat
    }

    /// The layout with the given numbers of scalars and vectors, one of which
    /// at least must not be zero.
    pub fn new(policy_scalars: usize, state_vectors: usize) -> (r: Result<
        Self,
        RequiredDataLayoutError,
    >)
        ensures
            r is Ok <==> policy_scalars > 0 || state_vectors > 0,
            r is Ok ==> r->Ok_0.scalars() == policy_scalars && r->Ok_0.vectors() == state_vectors,
    {
        if policy_scalars == 0 && state_vectors == 0 {
            return Err(RequiredDataLayoutError);
        }
        Ok(Self { policy_scalars, state_vectors })
    }

    /// The number of scalars for each policy.
    pub fn policy_scalars(&self) -> (r: usize)
        ensures
            r == self.scalars(),
    {
        self.policy_scalars
    }

    /// The number of vectors with one entry for each state.
    pub fn state_vectors(&self) -> (r: usize)
        ensures
            r == self.vectors(),
    {
        self.state_vectors
    }

    /// Whether two layouts have the same numbers.
    pub fn same_as(&self, other: &Self) -> (r: bool)
        ensures
            r == (self.scalars() == other.scalars() && self.vectors() == other.vectors()),
    {
        self.policy_scalars == other.policy_scalars && self.state_vectors == other.state_vectors
    }
}

/// A buffer was asked for with no state, with storage that is not of the
/// length that its layout fixes, or with more entries than can be addressed.
#[derive(Debug, Clone, Copy, PartialEq, Eq)]
pub struct RequiredDataBufferError;

/// The shape of a required-data buffer: its layout and the number of
/// states. The scalars lie in one run, the vectors in another, one vector
/// after the other.
#[derive(Debug, Clone, Copy)]
pub struct RequiredDataShape {
    layout: RequiredDataLayout,
    n_states: usize,
}

impl RequiredDataShape {
    #[verifier::type_invariant]
    spec fn addressable(self) -> bool {
        self.n_states > 0 && self.layout.vectors() * self.n_states <= usize::MAX
    }

    /// The layout of the buffer.
    pub closed spec fn layout_of(&self) -> RequiredDataLayout {
        self.layout
    }

    /// The number of states.
    pub closed spec fn states(&self) -> nat {
        self.n_states as nat
    }

    /// The shape of a buffer with the given layout for `n_states` states.
    /// Fails where there is no state, or where the vectors have more entries
    /// than can be addressed.
    pub fn new(layout: RequiredDataLayout, n_states: usize) -> (r: Result<
        Self,
        RequiredDataBufferError,
    >)
        ensures
            r is Ok <==> n_states > 0 && layout.vectors() * n_states <= usize::MAX,
            r is Ok ==> r->Ok_0.layout_of() == layout && r->Ok_0.states() == n_states,
    {
        if n_states == 0 {
            return Err(RequiredDataBufferError);
        }
        match layout.state_vectors().checked_mul(n_states) {
            Some(_) => Ok(Self { layout, n_states }),
            None => Err(RequiredDataBufferError),
        }
    }

    /// The shape of a buffer made of existing storage: as `new`, and the
    /// lengths of the two runs must be those that the shape fixes.
    pub fn from_parts(
        layout: RequiredDataLayout,
        n_states: usize,
        policy_scalars_len: usize,
        state_vectors_len: usize,
    ) -> (r: Result<Self, RequiredDataBufferError>)
        ensures
            r is Ok <==> n_states > 0 && policy_scalars_len == layout.scalars() && state_vectors_len
                == layout.vectors() * n_states,
            r is Ok ==> r->Ok_0.layout_of() == layout && r->Ok_0.states() == n_states,
    {
        if n_states == 0 {
            return Err(RequiredDataBufferError);
        }
        if policy_scalars_len != layout.policy_scalars() {
            return Err(RequiredDataBufferError);
        }
        let expected = match layout.state_vectors().checked_mul(n_states) {
            Some(v) => v,
            None => {
                return Err(RequiredDataBufferError);
            },
        };
        if state_vectors_len != expected {
            return Err(RequiredDataBufferError);
        }
        Ok(Self { layout, n_states })
    }

    /// The layout of the buffer.
    pub fn layout(&self) -> (r: RequiredDataLayout)
        ensures
            r == self.layout_of(),
    {
        self.layout
    }

    /// The number of states.
    pub fn n_states(&self) -> (r: usize)
        ensures
            r == self.states(),
            r > 0,
    {
        proof {
            use_type_invariant(self);
        }
        self.n_states
    }

    /// The length of the run of scalars.
    pub fn policy_scalars_len(&self) -> (r: usize)
        ensures
            r == self.layout_of().scalars(),
    {
        self.layout.policy_scalars()
    }

    /// The length of the run of vectors.
    pub fn state_vectors_len(&self) -> (r: usize)
        ensures
            r == self.layout_of().vectors() * self.states(),
    {
        proof {
            use_type_invariant(self);
        }
        self.layout.state_vectors() * self.n_states
    }

    /// The place in the run of vectors where vector number `field` starts;
    /// the vector ends before the run does.
    pub fn state_vector_offset(&self, field: usize) -> (r: usize)
        requires
            field < self.layout_of().vectors(),
        ensures
            r == field * self.states(),
            r + self.states() <= self.layout_of().vectors() * self.states(),
    {
        proof {
            use_type_invariant(self);
            let v = self.layout.vectors() as int;
            let n = self.n_states as int;
            let f = field as int;
            assert(f * n + n <= v * n) by (nonlinear_arith)
                requires
                    0 <= f < v,
                    0 < n,
            ;
            assert(f * n >= 0) by (nonlinear_arith)
                requires
                    0 <= f,
                    0 < n,
            ;
        }
        field * self.n_states
    }
}

} // verus!
