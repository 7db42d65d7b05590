use ak::rng::mrg32k3a::{Mrg32k3aCore, Mrg32k3aError, N};
use rayon::iter::{IntoParallelIterator, IntoParallelRefIterator, ParallelIterator};

const M1: u64 = 4_294_967_087;
const M2: u64 = 4_294_944_443;

fn take(rng: &mut Mrg32k3aCore, n: usize) -> Vec<u64> {
    (0..n).map(|_| rng.step_u64()).collect()
}

#[test]
fn sequence_from_default_seed() {
    let mut rng = Mrg32k3aCore::default();
    let expected = [
        18446744069414584529,
        545508589,
        545508589,
        1729634130,
        18446744067398777457,
        18446744068605071855,
        1174362367,
        18446744067747663158,
        893945877,
        2017763182,
    ];
    for &e in &expected {
        assert_eq!(rng.step_u64(), e);
    }
}

#[test]
fn sequence_after_set_seed() {
    let mut rng = Mrg32k3aCore::default();
    rng.set_seed(1);
    let expected = [
        3950718346,
        18446744065775893456,
        2489117118,
        2300407520,
        18446744067822805725,
    ];
    for &e in &expected {
        assert_eq!(rng.step_u64(), e);
    }
}

/// Ensure running several RNG instances in parallel yields the same
/// sequences as generating them sequentially on a single thread.
#[test]
fn multithreaded_consistency() {
    let seeds = [1u64, 2, 3, 4];
    // Pre-compute the sequences produced by each seed on the current
    // thread. These serve as the single-threaded reference results.
    let expected: Vec<Vec<u64>> = seeds
        .iter()
        .map(|&s| {
            let mut r = Mrg32k3aCore::default();
            r.set_seed(s);
            (0..128).map(|_| r.step_u64()).collect::<Vec<_>>()
        })
        .collect();

    let results: Vec<Vec<u64>> = seeds
        .par_iter()
        .map(|&s| {
            let mut r = Mrg32k3aCore::default();
            r.set_seed(s);
            (0..128).map(|_| r.step_u64()).collect::<Vec<_>>()
        })
        .collect();

    for (res, exp) in results.into_iter().zip(expected) {
        assert_eq!(res, exp);
    }
}

#[test]
fn set_stream_equivalent_to_advancing() {
    let mut a = Mrg32k3aCore::default();
    for _ in 0..3 {
        a.advance_stream();
    }

    let mut b = Mrg32k3aCore::default();
    b.set_stream(3);

    for _ in 0..32 {
        assert_eq!(a.step_u64(), b.step_u64());
    }
}

#[test]
fn multithreaded_streams() {
    let streams = rayon::current_num_threads() as u64;

    let expected: Vec<Vec<u64>> = (0..streams)
        .map(|s| {
            let mut r = Mrg32k3aCore::default();
            r.set_stream(s);
            (0..128).map(|_| r.step_u64()).collect::<Vec<_>>()
        })
        .collect();

    let results: Vec<Vec<u64>> = (0..streams)
        .into_par_iter()
        .map(|s| {
            let mut r = Mrg32k3aCore::default();
            r.set_stream(s);
            (0..128).map(|_| r.step_u64()).collect::<Vec<_>>()
        })
        .collect();

    for (res, exp) in results.into_iter().zip(expected) {
        assert_eq!(res, exp);
    }
}

#[test]
fn default_state_first_two_values() {
    let mut rng = Mrg32k3aCore::default();
    assert_eq!(rng.step_u64(), 18446744069414584529);
    assert_eq!(rng.step_u64(), 545508589);
}

#[test]
fn mixing_function_known_values() {
    assert_eq!(Mrg32k3aCore::stafford_mix_13(0), 0);
    assert_eq!(Mrg32k3aCore::stafford_mix_13(1), 3119036373970289394);
    assert_eq!(Mrg32k3aCore::stafford_mix_13(u64::MAX), 6514504133438201533);
}

#[test]
fn set_seed_gives_the_mixed_sub_seeds() {
    // The state that seed 1 expands to, entered by hand, runs the same way.
    let mut seeded = Mrg32k3aCore::default();
    seeded.set_seed(1);
    let mut explicit = Mrg32k3aCore::default();
    explicit
        .set_seeds([2032737633, 2716796337, 4124933963, 4135875670, 3546898972, 174215617])
        .unwrap();
    assert_eq!(take(&mut seeded, 16), take(&mut explicit, 16));
}

#[test]
fn set_seed_zero_is_not_degenerate() {
    let mut seeded = Mrg32k3aCore::default();
    seeded.set_seed(0);
    let mut explicit = Mrg32k3aCore::default();
    explicit
        .set_seeds([199482784, 1763279356, 53257574, 279997384, 1444928145, 1869480607])
        .unwrap();
    assert_eq!(take(&mut seeded, 16), take(&mut explicit, 16));
}

#[test]
fn set_seeds_reports_the_first_sub_seed_out_of_range() {
    let mut rng = Mrg32k3aCore::default();
    assert_eq!(rng.set_seeds([0, 1, 1, 1, 1, 1]), Err(Mrg32k3aError::InvalidM1Seed(0)));
    assert_eq!(rng.set_seeds([1, M1, 1, 1, 1, 1]), Err(Mrg32k3aError::InvalidM1Seed(M1)));
    assert_eq!(rng.set_seeds([1, 1, u64::MAX, 0, 1, 1]), Err(Mrg32k3aError::InvalidM1Seed(u64::MAX)));
    assert_eq!(rng.set_seeds([1, 1, 1, 0, M2, 1]), Err(Mrg32k3aError::InvalidM2Seed(0)));
    assert_eq!(rng.set_seeds([1, 1, 1, 1, M2, 0]), Err(Mrg32k3aError::InvalidM2Seed(M2)));
    assert_eq!(rng.set_seeds([1, 1, 1, 1, 1, M2 + 5]), Err(Mrg32k3aError::InvalidM2Seed(M2 + 5)));
    // M2 is a valid sub-seed of the first component, and the largest values pass.
    assert_eq!(rng.set_seeds([M2, M1 - 1, 1, M2 - 1, 1, 1]), Ok(()));
}

#[test]
fn set_seeds_leaves_the_state_on_error() {
    let mut rng = Mrg32k3aCore::default();
    assert!(rng.set_seeds([5, 6, 7, 8, 9, 0]).is_err());
    let mut fresh = Mrg32k3aCore::default();
    assert_eq!(take(&mut rng, 8), take(&mut fresh, 8));
}

#[test]
fn stream_jump_known_state() {
    // The state 2^127 steps after the default one, and the state 3 * 2^127
    // steps after it.
    let mut jumped = Mrg32k3aCore::default();
    jumped.advance_stream();
    let mut explicit = Mrg32k3aCore::default();
    explicit
        .set_seeds([3692455944, 1366884236, 2968912127, 1779184241, 640423899, 3384479097])
        .unwrap();
    assert_eq!(take(&mut jumped, 8), take(&mut explicit, 8));

    let mut third = Mrg32k3aCore::default();
    third.set_stream(3);
    let mut explicit = Mrg32k3aCore::default();
    explicit
        .set_seeds([2338701263, 1119171942, 2570676563, 2708560965, 4124521593, 3216195866])
        .unwrap();
    assert_eq!(take(&mut third, 8), take(&mut explicit, 8));
}

#[test]
fn substream_jump_known_state() {
    // The state 2^76 steps after the default one, and the state 5 * 2^76
    // steps after it.
    let mut jumped = Mrg32k3aCore::default();
    jumped.advance_substream();
    let mut explicit = Mrg32k3aCore::default();
    explicit
        .set_seeds([870504860, 2641697727, 884013853, 3419511804, 3228820659, 3248325538])
        .unwrap();
    assert_eq!(take(&mut jumped, 8), take(&mut explicit, 8));

    let mut fifth = Mrg32k3aCore::default();
    fifth.advance_substreams(5);
    let mut explicit = Mrg32k3aCore::default();
    explicit
        .set_seeds([934940479, 1950100692, 4183308048, 4051561607, 454158024, 358655987])
        .unwrap();
    assert_eq!(take(&mut fifth, 8), take(&mut explicit, 8));
}

#[test]
fn jumping_by_zero_changes_nothing() {
    let mut a = Mrg32k3aCore::default();
    a.set_stream(0);
    a.advance_streams(0);
    a.advance_substreams(0);
    let mut b = Mrg32k3aCore::default();
    assert_eq!(take(&mut a, 8), take(&mut b, 8));
}

#[test]
fn set_stream_is_additive_in_the_offset() {
    for &(a, b) in &[(0u64, 0u64), (1, 0), (0, 7), (3, 4), (1000, 24), (1 << 40, 12345)] {
        let mut once = Mrg32k3aCore::default();
        once.set_seed(99);
        once.set_stream(a + b);
        let mut twice = Mrg32k3aCore::default();
        twice.set_seed(99);
        twice.set_stream(a);
        twice.set_stream(b);
        assert_eq!(take(&mut once, 16), take(&mut twice, 16));
    }
}

#[test]
fn substreams_are_additive_and_match_single_jumps() {
    let mut once = Mrg32k3aCore::default();
    once.advance_substreams(4);
    let mut stepwise = Mrg32k3aCore::default();
    for _ in 0..4 {
        stepwise.advance_substream();
    }
    assert_eq!(take(&mut once, 16), take(&mut stepwise, 16));
}

#[test]
fn clone_runs_independently() {
    let mut source = Mrg32k3aCore::default();
    let mut copy = source.clone();
    let first = take(&mut source, 4);
    assert_eq!(take(&mut copy, 4), first);
}

#[test]
fn generate_emits_the_next_values_in_order() {
    let mut blocks = Mrg32k3aCore::default();
    let mut single = Mrg32k3aCore::default();
    assert_eq!(N, 16);
    for _ in 0..2 {
        let mut results = [0u64; N];
        blocks.generate(&mut results);
        let expected = take(&mut single, N);
        assert_eq!(results.to_vec(), expected);
    }
    assert_eq!(blocks.step_u64(), single.step_u64());
}

#[test]
fn from_seed_reads_the_bytes_least_significant_first() {
    let value = 0x0102_0304_0506_0708u64;
    let mut from_bytes = Mrg32k3aCore::from_seed([8, 7, 6, 5, 4, 3, 2, 1]);
    let mut from_value = Mrg32k3aCore::default();
    from_value.set_seed(value);
    assert_eq!(take(&mut from_bytes, 8), take(&mut from_value, 8));

    let mut one = Mrg32k3aCore::from_seed(1u64.to_le_bytes());
    let expected = [
        3950718346,
        18446744065775893456,
        2489117118,
        2300407520,
        18446744067822805725,
    ];
    assert_eq!(take(&mut one, 5), expected);

    let mut top = Mrg32k3aCore::from_seed(u64::MAX.to_le_bytes());
    let mut max = Mrg32k3aCore::default();
    max.set_seed(u64::MAX);
    assert_eq!(take(&mut top, 8), take(&mut max, 8));
}

#[test]
fn a_stream_is_two_to_the_fifty_one_substreams() {
    let mut by_stream = Mrg32k3aCore::default();
    by_stream.advance_stream();
    let mut by_substreams = Mrg32k3aCore::default();
    by_substreams.advance_substreams(1 << 51);
    assert_eq!(take(&mut by_stream, 8), take(&mut by_substreams, 8));
}

#[test]
fn a_jump_lands_where_the_steps_lead() {
    // The one-step matrix raised to a small power must agree with stepping;
    // the substream and stream jumps are the same multiplication, squared on.
    let mut far = Mrg32k3aCore::default();
    far.advance_substreams(3);
    far.advance_streams(2);
    let mut other = Mrg32k3aCore::default();
    other.advance_streams(2);
    other.advance_substreams(3);
    assert_eq!(take(&mut far, 8), take(&mut other, 8));

    // Jumps commute with steps: stepping before or after the jump is the same.
    let mut step_then_jump = Mrg32k3aCore::default();
    step_then_jump.step_u64();
    step_then_jump.advance_stream();
    let mut jump_then_step = Mrg32k3aCore::default();
    jump_then_step.advance_stream();
    jump_then_step.step_u64();
    assert_eq!(take(&mut step_then_jump, 8), take(&mut jump_then_step, 8));

    let mut step_then_sub = Mrg32k3aCore::default();
    step_then_sub.step_u64();
    step_then_sub.advance_substream();
    let mut sub_then_step = Mrg32k3aCore::default();
    sub_then_step.advance_substream();
    sub_then_step.step_u64();
    assert_eq!(take(&mut step_then_sub, 8), take(&mut sub_then_step, 8));
}

#[test]
fn set_seed_depends_on_the_seed_alone() {
    let mut fresh = Mrg32k3aCore::default();
    fresh.set_seed(77);
    let mut used = Mrg32k3aCore::default();
    used.set_stream(5);
    used.step_u64();
    used.set_seed(77);
    assert_eq!(take(&mut fresh, 8), take(&mut used, 8));
}

#[test]
fn set_seed_that_mixes_to_a_zero_still_runs() {
    // The mixing function takes 0 to 0: with this seed the first counter is
    // 0 and the first sub-seed with it. The component is not all zero, so it
    // stays as it is.
    let seed = 0u64.wrapping_sub(0x9e37_79b9_7f4a_7c15);
    let mut seeded = Mrg32k3aCore::default();
    seeded.set_seed(seed);
    let first = take(&mut seeded, 64);
    assert!(first.iter().any(|&v| v != first[0]));
}

#[test]
fn revive_replaces_three_zeros_only() {
    assert_eq!(Mrg32k3aCore::revive([0, 0, 0]), [12345, 12345, 12345]);
    assert_eq!(Mrg32k3aCore::revive([0, 0, 1]), [0, 0, 1]);
    assert_eq!(Mrg32k3aCore::revive([0, 7, 0]), [0, 7, 0]);
    assert_eq!(Mrg32k3aCore::revive([4294967086, 0, 0]), [4294967086, 0, 0]);
    assert_eq!(Mrg32k3aCore::revive([12345, 12345, 12345]), [12345, 12345, 12345]);
}
