//! The simulation harness: one stream for each path, so that a row of the
//! result depends on the template generator and the path's index alone.
//!
//! A draw is the low 32 bits of a value that the generator emits. The draws
//! of a path go to a model, which makes a scenario of them, and the scenario
//! goes to a product, which turns it into a row of payoffs. Model and product
//! are the caller's; what they compute is named by their specification
//! functions, and the harness is proved to hand each path exactly its own
//! draws, in whatever order and in whatever company the paths are run.
use crate::rng::mrg32k3a::{output, steps, streams, Mrg32k3aCore};
use crate::rng::state::GeneratorState;
use vstd::prelude::*;

verus! {

/// The low 32 bits of an emitted value.
pub open spec fn low_word(v: int) -> u32 {
    (v % 0x1_0000_0000) as u32
}

/// The first `n` draws of a generator in state `s`.
pub open spec fn draws_from(s: GeneratorState, n: nat) -> Seq<u32> {
    Seq::new(n, |k: int| low_word(output(steps(s, k as nat))))
}

/// The draws of path number `path`: the first `dims` draws of the template
/// moved on by `path` streams.
pub open spec fn path_row(template: GeneratorState, path: nat, dims: nat) -> Seq<u32> {
    draws_from(streams(template, path), dims)
}

/// A model: it says how many draws a path takes, and makes a scenario of
/// the draws of a path.
///
/// Determinism: the scenario depends on the draws alone. `scenario_of` names
/// it; an implementation that is to be verified defines both functions.
pub trait Model {
    /// What the model hands to the product.
    type Scenario;

    /// The number of draws that a path takes.
    open spec fn dimensions(&self) -> nat {
        arbitrary()
    }

    /// The scenario that the model makes of the draws of a path.
    open spec fn scenario_of(&self, draws: Seq<u32>) -> Self::Scenario {
        arbitrary()
    }

    /// The number of draws that a path takes.
    fn simulation_dimensions(&self) -> (r: usize)
        ensures
            r == self.dimensions(),
    ;

    /// Called once before the first path, with the timeline length and the
    /// defline size that the product asks for.
    fn init(&self, timeline: usize, defline: usize);

    /// Makes the scenario of one path of its draws.
    fn generate_path(&self, draws: &[u32]) -> (path: Self::Scenario)
        ensures
            path == self.scenario_of(draws@),
    ;
}

/// A product: it says what it needs of a model, and turns the scenario of a
/// path into a row of payoffs.
///
/// Determinism: the payoffs depend on the scenario alone. `payoffs_of` names
/// them; an implementation that is to be verified defines it.
pub trait Product {
    /// What the product takes from the model.
    type Scenario;

    /// A payoff.
    type Payoff;

    /// The number of payoffs in a row.
    open spec fn width(&self) -> nat {
        arbitrary()
    }

    /// The payoffs of a scenario.
    open spec fn payoffs_of(&self, path: Self::Scenario) -> Seq<Self::Payoff> {
        arbitrary()
    }

    /// The names of the payoffs, in the order of a row.
    fn payoff_labels(&self) -> (labels: Vec<String>)
        ensures
            labels@.len() == self.width(),
    ;

    /// The number of payoffs in a row.
    fn payoff_count(&self) -> (r: usize)
        ensures
            r == self.width(),
    ;

    /// The timeline length that the product needs.
    fn timeline(&self) -> usize;

    /// The defline size that the product needs.
    fn defline(&self) -> usize;

    /// The payoffs of one path, from its scenario.
    fn payoffs(&self, path: &Self::Scenario) -> (result: Vec<Self::Payoff>)
        ensures
            result@ == self.payoffs_of(*path),
            result@.len() == self.width(),
    ;
}

/// The rows that a table holds.
pub open spec fn rows_of<T>(table: Seq<Vec<T>>) -> Seq<Seq<T>> {
    Seq::new(table.len(), |i: int| table[i]@)
}

/// The payoffs of path number `path`: those that the product gives for the
/// scenario that the model makes of the path's draws.
pub open spec fn path_payoffs<P: Product, M: Model<Scenario = P::Scenario>>(
    prd: &P,
    mdl: &M,
    template: GeneratorState,
    path: nat,
) -> Seq<P::Payoff> {
    prd.payoffs_of(mdl.scenario_of(path_row(template, path, mdl.dimensions())))
}

/// The rows of payoffs of the paths `first..first + count`, in order.
pub open spec fn block_payoffs<P: Product, M: Model<Scenario = P::Scenario>>(
    prd: &P,
    mdl: &M,
    template: GeneratorState,
    first: nat,
    count: nat,
) -> Seq<Seq<P::Payoff>> {
    Seq::new(count, |i: int| path_payoffs(prd, mdl, template, (first + i) as nat))
}

/// Draws `n` values from `core`, one after another, and keeps the low 32
/// bits of each.
pub fn draw_words(core: &mut Mrg32k3aCore, n: usize) -> (r: Vec<u32>)
    ensures
        r@ == draws_from(old(core)@, n as nat),
        final(core)@ == steps(old(core)@, n as nat),
{
    let mut out: Vec<u32> = Vec::new();
    let mut k: usize = 0;
    while k < n
        invariant
            k <= n,
            out@ == draws_from(old(core)@, k as nat),
            core@ == steps(old(core)@, k as nat),
        decreases n - k,
    {
        let v = core.step_u64();
        let low = v & 0xFFFF_FFFF;
        assert(low == v % 0x1_0000_0000) by (bit_vector)
            requires
                low == v & 0xFFFF_FFFF,
        ;
        out.push(low as u32);
        k += 1;
        assert(out@ =~= draws_from(old(core)@, k as nat));
    }
    out
}

/// The draws of one path: a copy of the template is moved on by `path`
/// streams before anything is drawn, and gives `dims` draws. The template is
/// left as it is.
pub fn path_draws(template: &Mrg32k3aCore, path: u64, dims: usize) -> (r: Vec<u32>)
    ensures
        r@ == path_row(template@, path as nat, dims as nat),
{
    let mut local = template.clone();
    local.set_stream(path);
    draw_words(&mut local, dims)
}

/// The payoffs of one path. The path's draws come from a copy of the
/// template moved on by `path` streams; they go to the model, and the model's
/// scenario goes to the product.
pub fn simulate_path<P: Product, M: Model<Scenario = P::Scenario>>(
    prd: &P,
    mdl: &M,
    rng: &Mrg32k3aCore,
    path: u64,
) -> (row: Vec<P::Payoff>)
    ensures
        row@ == path_payoffs(prd, mdl, rng@, path as nat),
        row@.len() == prd.width(),
{
    let dims = mdl.simulation_dimensions();
    let draws = path_draws(rng, path, dims);
    let scenario = mdl.generate_path(draws.as_slice());
    prd.payoffs(&scenario)
}

/// The rows of the paths `first..first + count`, as one worker computes
/// them: row `i` is that of path `first + i`, whatever else the worker did.
pub fn simulate_block<P: Product, M: Model<Scenario = P::Scenario>>(
    prd: &P,
    mdl: &M,
    rng: &Mrg32k3aCore,
    first: u64,
    count: usize,
) -> (table: Vec<Vec<P::Payoff>>)
    requires
        first + count <= u64::MAX,
    ensures
        rows_of(table@) == block_payoffs(prd, mdl, rng@, first as nat, count as nat),
        forall|i: int| 0 <= i < count ==> (#[trigger] table@[i])@.len() == prd.width(),
{
    let mut table: Vec<Vec<P::Payoff>> = Vec::new();
    let mut i: usize = 0;
    while i < count
        invariant
            i <= count,
            first + count <= u64::MAX,
            table@.len() == i,
            forall|j: int| 0 <= j < i ==> (#[trigger] table@[j])@.len() == prd.width(),
            forall|j: int|
                0 <= j < i ==> (#[trigger] table@[j])@ == path_payoffs(
                    prd,
                    mdl,
                    rng@,
                    (first + j) as nat,
                ),
        decreases count - i,
    {
        let row = simulate_path(prd, mdl, rng, first + i as u64);
        table.push(row);
        i += 1;
    }
    assert(rows_of(table@) =~= block_payoffs(prd, mdl, rng@, first as nat, count as nat));
    table
}

/// Runs `paths` paths of the model through the product: one row of payoffs
/// for each path, in the order of the paths.
///
/// The model is initialized once. Row `i` is made of the draws of stream `i`
/// of the template and of nothing else.
pub fn simulate<P: Product, M: Model<Scenario = P::Scenario>>(
    prd: &P,
    mdl: &M,
    rng: &Mrg32k3aCore,
    paths: usize,
) -> (table: Vec<Vec<P::Payoff>>)
    ensures
        rows_of(table@) == block_payoffs(prd, mdl, rng@, 0, paths as nat),
        forall|i: int| 0 <= i < paths ==> (#[trigger] table@[i])@.len() == prd.width(),
{
    mdl.init(prd.timeline(), prd.defline());
    simulate_block(prd, mdl, rng, 0, paths)
}

/// Splitting the paths between workers does not change a row: the rows of
/// `first..first + count` are those of the first `cut` paths followed by
/// those of the rest, each block computed on its own.
pub proof fn lemma_split_blocks<P: Product, M: Model<Scenario = P::Scenario>>(
    prd: &P,
    mdl: &M,
    template: GeneratorState,
    first: nat,
    cut: nat,
    count: nat,
)
    requires
        cut <= count,
    ensures
        block_payoffs(prd, mdl, template, first, count) == block_payoffs(
            prd,
            mdl,
            template,
            first,
            cut,
        ) + block_payoffs(prd, mdl, template, first + cut, (count - cut) as nat),
{
    let whole = block_payoffs(prd, mdl, template, first, count);
    let parts = block_payoffs(prd, mdl, template, first, cut) + block_payoffs(
        prd,
        mdl,
        template,
        first + cut,
        (count - cut) as nat,
    );
    assert forall|i: int| 0 <= i < count implies whole[i] == parts[i] by {
        if i >= cut {
            assert((first + cut + (i - cut)) as nat == (first + i) as nat);
        }
    }
    assert(whole =~= parts);
}

/// A row depends on the product, the model, the template and the path's
/// index alone: in whatever block a path is computed, its row is the same.
pub proof fn lemma_row_independent_of_block<P: Product, M: Model<Scenario = P::Scenario>>(
    prd: &P,
    mdl: &M,
    template: GeneratorState,
    first_a: nat,
    count_a: nat,
    first_b: nat,
    count_b: nat,
    path: nat,
)
    requires
        first_a <= path < first_a + count_a,
        first_b <= path < first_b + count_b,
    ensures
        block_payoffs(prd, mdl, template, first_a, count_a)[path - first_a] == block_payoffs(
            prd,
            mdl,
            template,
            first_b,
            count_b,
        )[path - first_b],
        block_payoffs(prd, mdl, template, first_a, count_a)[path - first_a] == path_payoffs(
            prd,
            mdl,
            template,
            path,
        ),
{
    assert((first_a + (path - first_a)) as nat == path);
    assert((first_b + (path - first_b)) as nat == path);
}

} // verus!
