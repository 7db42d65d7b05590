use ak::rng::mgk32a::{mod_m, valid_component, Mgk32a, SeedError};
use ak::rng::RngCore;

const M1: u64 = 4_294_967_087;
const M2: u64 = 4_294_944_443;

#[test]
fn mgk32a_known_sequence() {
    let mut rng = Mgk32a::new([12345; 6]).unwrap();
    let expected = [
        545_508_589,
        1_368_065_410,
        1_327_943_761,
        3_546_985_096,
        951_893_194,
    ];
    let mut actual = [0u32; 5];
    for v in &mut actual {
        *v = rng.next_u32();
    }
    assert_eq!(actual, expected);
}

#[test]
fn mgk32a_advance_matches_iter() {
    let seed = [1, 2, 3, 4, 5, 6];
    let mut advanced = Mgk32a::new(seed).unwrap();
    let mut iterated = Mgk32a::new(seed).unwrap();
    advanced.advance(1_000);
    for _ in 0..1_000 {
        iterated.next_u32();
    }
    assert_eq!(advanced.state(), iterated.state());
    assert_eq!(advanced.next_u32(), iterated.next_u32());
}

#[test]
fn advance_known_state() {
    let mut rng = Mgk32a::new([1, 2, 3, 4, 5, 6]).unwrap();
    rng.advance(1_000);
    assert_eq!(
        rng.state(),
        [3743542794, 1010305672, 3344509330, 3623175459, 2245546903, 2529316263]
    );
    assert_eq!(rng.next_u32(), 2900358780);
}

#[test]
fn advance_matches_stepping_for_many_offsets() {
    for seed in [[1u64, 2, 3, 4, 5, 6], [12345; 6], [M1 - 1, 1, M1 - 1, M2 - 1, 1, M2 - 1]] {
        let mut iterated = Mgk32a::new(seed).unwrap();
        for k in 0..70u128 {
            let mut advanced = Mgk32a::new(seed).unwrap();
            advanced.advance(k);
            assert_eq!(advanced.state(), iterated.state());
            iterated.next_u32();
        }
    }
}

#[test]
fn advance_by_zero_is_a_no_op() {
    let mut rng = Mgk32a::new([7, 8, 9, 10, 11, 12]).unwrap();
    rng.advance(0);
    assert_eq!(rng.state(), [7, 8, 9, 10, 11, 12]);
}

#[test]
fn advance_is_additive() {
    let seed = [11, 22, 33, 44, 55, 66];
    let a = 1u128 << 70;
    let b = 987_654_321u128;
    let mut once = Mgk32a::new(seed).unwrap();
    once.advance(a + b);
    let mut twice = Mgk32a::new(seed).unwrap();
    twice.advance(a);
    twice.advance(b);
    assert_eq!(once.state(), twice.state());
}

#[test]
fn new_rejects_sub_seeds_out_of_range() {
    assert_eq!(Mgk32a::new([0, 1, 1, 1, 1, 1]).err(), Some(SeedError));
    assert_eq!(Mgk32a::new([1, 1, M1, 1, 1, 1]).err(), Some(SeedError));
    assert_eq!(Mgk32a::new([1, 1, 1, 1, 0, 1]).err(), Some(SeedError));
    assert_eq!(Mgk32a::new([1, 1, 1, 1, 1, M2]).err(), Some(SeedError));
    assert_eq!(Mgk32a::new([1, 1, 1, M2 + 1, 1, 1]).err(), Some(SeedError));
    assert!(Mgk32a::new([M1 - 1, M2, 1, M2 - 1, 1, 1]).is_ok());
}

#[test]
fn new_keeps_the_sub_seeds() {
    let rng = Mgk32a::new([1, 2, 3, 4, 5, 6]).unwrap();
    assert_eq!(rng.state(), [1, 2, 3, 4, 5, 6]);
}

#[test]
fn from_seed64_known_states() {
    assert_eq!(
        Mgk32a::from_seed64(0).state(),
        [4192756788, 220047340, 2799386524, 3543576469, 434978859, 849877705]
    );
    assert_eq!(
        Mgk32a::from_seed64(42).state(),
        [3933409512, 2494075973, 550020183, 1324769888, 997812011, 3549287151]
    );
}

#[test]
fn from_seed64_is_always_a_valid_seed() {
    for seed in [0u64, 1, 2, 0x9E37_79B9_7F4A_7C15, u64::MAX, u64::MAX - 0x9E37_79B9_7F4A_7C15 + 1] {
        let state = Mgk32a::from_seed64(seed).state();
        assert!(Mgk32a::new(state).is_ok());
    }
}

#[test]
fn for_stream_positions_at_stream_times_stride() {
    let seed = [1, 2, 3, 4, 5, 6];
    let rng = Mgk32a::for_stream(seed, 2, 3).unwrap();
    assert_eq!(
        rng.state(),
        [3339857054, 2615078252, 75387746, 3049921869, 817006325, 1552743851]
    );
    let mut stepped = Mgk32a::new(seed).unwrap();
    for _ in 0..6 {
        stepped.next_u32();
    }
    assert_eq!(rng.state(), stepped.state());
    assert_eq!(Mgk32a::for_stream(seed, 0, 77).unwrap().state(), seed);
}

#[test]
fn for_stream_saturates_the_offset() {
    let seed = [1, 2, 3, 4, 5, 6];
    let saturated = Mgk32a::for_stream(seed, u128::MAX, 2).unwrap();
    let mut direct = Mgk32a::new(seed).unwrap();
    direct.advance(u128::MAX);
    assert_eq!(saturated.state(), direct.state());
}

#[test]
fn for_stream_rejects_a_bad_seed() {
    assert_eq!(Mgk32a::for_stream([0; 6], 1, 1).err(), Some(SeedError));
}

#[test]
fn mod_m_is_the_least_non_negative_residue() {
    assert_eq!(mod_m(-1, 7), 6);
    assert_eq!(mod_m(-7, 7), 0);
    assert_eq!(mod_m(-8, 7), 6);
    assert_eq!(mod_m(0, 7), 0);
    assert_eq!(mod_m(15, 7), 1);
    assert_eq!(mod_m(-(810_728i128 * 4_294_967_086), M1), 810_728);
    assert_eq!(mod_m(i128::MIN, 1), 0);
    assert_eq!(mod_m(i128::MAX, u64::MAX), (i128::MAX % (u64::MAX as i128)) as u64);
}

#[test]
fn valid_component_wants_one_to_modulus() {
    assert!(valid_component(&[1, 2, 6], 7));
    assert!(!valid_component(&[0, 2, 6], 7));
    assert!(!valid_component(&[1, 7, 6], 7));
    assert!(!valid_component(&[1, 2, 8], 7));
    assert!(!valid_component(&[1, 1, 1], 1));
}

#[test]
fn state_never_becomes_degenerate() {
    // From the smallest valid state the generator keeps running through
    // states with a nonzero entry in each component.
    let mut rng = Mgk32a::new([1, 1, 1, 1, 1, 1]).unwrap();
    for _ in 0..10_000 {
        rng.next_u32();
        let s = rng.state();
        assert!(s[0] != 0 || s[1] != 0 || s[2] != 0);
        assert!(s[3] != 0 || s[4] != 0 || s[5] != 0);
        assert!(s[0] < M1 && s[1] < M1 && s[2] < M1);
        assert!(s[3] < M2 && s[4] < M2 && s[5] < M2);
    }
}
