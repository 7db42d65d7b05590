use ak::rng::sobol::{default_directions_dim1, Sobol, SobolError};

fn unit(word: u32) -> f64 {
    (word as f64) / (u32::MAX as f64 + 1.0)
}

/// A second table of direction numbers: the first dimension's, each crossed
/// with its neighbour shifted down.
fn second_directions() -> [u32; 32] {
    let mut v = [0u32; 32];
    for i in 0..32 {
        let base = 1u32 << (31 - i);
        v[i] = base | (base >> 1) | (base >> 3);
    }
    v
}

#[test]
fn sobol_dim1_sequence() {
    let mut sobol = Sobol::new(1).unwrap();
    let expected = [0.0, 0.5, 0.75, 0.25, 0.375, 0.875];
    for &value in &expected {
        let point = sobol.next_vec().unwrap();
        assert_eq!(point.len(), 1);
        assert_eq!(unit(point[0]), value);
    }
}

#[test]
fn sobol_seek_matches_expected_point() {
    let mut sobol = Sobol::new(1).unwrap();
    sobol.seek(4).unwrap();
    let point = sobol.next_vec().unwrap();
    assert_eq!(unit(point[0]), 0.375);
}

#[test]
fn first_words_of_dimension_one() {
    let mut sobol = Sobol::new(1).unwrap();
    let expected = [0u32, 0x8000_0000, 0xC000_0000, 0x4000_0000, 0x6000_0000, 0xE000_0000];
    for (i, &word) in expected.iter().enumerate() {
        assert_eq!(sobol.index(), i as u64);
        assert_eq!(sobol.next_vec().unwrap(), vec![word]);
    }
    assert_eq!(sobol.index(), 6);
}

#[test]
fn new_knows_dimension_one_only() {
    assert_eq!(Sobol::new(0).err(), Some(SobolError));
    assert_eq!(Sobol::new(2).err(), Some(SobolError));
    assert_eq!(Sobol::new(usize::MAX).err(), Some(SobolError));
    let sobol = Sobol::new(1).unwrap();
    assert_eq!(sobol.dimension(), 1);
    assert_eq!(sobol.index(), 0);
}

#[test]
fn with_directions_wants_a_dimension() {
    assert_eq!(Sobol::with_directions(Vec::new()).err(), Some(SobolError));
    let sobol = Sobol::with_directions(vec![[1u32; 32], [2u32; 32], [3u32; 32]]).unwrap();
    assert_eq!(sobol.dimension(), 3);
    assert_eq!(sobol.index(), 0);
}

#[test]
fn default_directions_are_the_descending_bits() {
    let tables = default_directions_dim1();
    assert_eq!(tables.len(), 1);
    for i in 0..32 {
        assert_eq!(tables[0][i], 1u32 << (31 - i));
    }
}

#[test]
fn next_point_checks_the_buffer_length_first() {
    let mut sobol = Sobol::with_directions(vec![[1u32; 32], [2u32; 32]]).unwrap();
    let mut short = [9u32; 1];
    assert_eq!(sobol.next_point(&mut short), Err(SobolError));
    assert_eq!(short, [9]);
    let mut long = [9u32; 3];
    assert_eq!(sobol.next_point(&mut long), Err(SobolError));
    assert_eq!(long, [9, 9, 9]);
    assert_eq!(sobol.index(), 0);
    let mut right = [9u32; 2];
    assert_eq!(sobol.next_point(&mut right), Ok(()));
    assert_eq!(right, [0, 0]);
    assert_eq!(sobol.index(), 1);
    assert_eq!(sobol.next_point(&mut right), Ok(()));
    assert_eq!(right, [1, 2]);
}

#[test]
fn seek_agrees_with_iteration_in_every_dimension() {
    let tables = vec![default_directions_dim1()[0], second_directions()];
    let mut walking = Sobol::with_directions(tables.clone()).unwrap();
    for index in 0..300u64 {
        let mut jumping = Sobol::with_directions(tables.clone()).unwrap();
        jumping.seek(index).unwrap();
        assert_eq!(jumping.index(), index);
        assert_eq!(jumping.next_vec().unwrap(), walking.next_vec().unwrap());
    }
}

#[test]
fn seek_far_agrees_with_stepping_from_nearby() {
    let tables = vec![default_directions_dim1()[0], second_directions()];
    let far = (1u64 << 31) + 12_345;
    let mut walking = Sobol::with_directions(tables.clone()).unwrap();
    walking.seek(far - 50).unwrap();
    for _ in 0..50 {
        walking.next_vec().unwrap();
    }
    let mut jumping = Sobol::with_directions(tables).unwrap();
    jumping.seek(far).unwrap();
    assert_eq!(jumping.next_vec().unwrap(), walking.next_vec().unwrap());
}

#[test]
fn seek_rejects_an_index_past_the_last() {
    let mut sobol = Sobol::new(1).unwrap();
    sobol.seek(5).unwrap();
    assert_eq!(sobol.seek(1u64 << 32), Err(SobolError));
    assert_eq!(sobol.seek(u64::MAX), Err(SobolError));
    assert_eq!(sobol.index(), 5);
    assert_eq!(sobol.next_vec().unwrap(), vec![0xE000_0000]);
    assert_eq!(sobol.seek((1u64 << 32) - 1), Ok(()));
}

#[test]
fn advance_is_a_seek_to_index_plus_delta() {
    let mut advanced = Sobol::new(1).unwrap();
    advanced.seek(3).unwrap();
    advanced.advance(4).unwrap();
    let mut sought = Sobol::new(1).unwrap();
    sought.seek(7).unwrap();
    assert_eq!(advanced.index(), 7);
    assert_eq!(advanced.next_vec().unwrap(), sought.next_vec().unwrap());
    advanced.advance(0).unwrap();
    assert_eq!(advanced.index(), 8);
}

#[test]
fn advance_rejects_a_target_past_the_last() {
    let mut sobol = Sobol::new(1).unwrap();
    sobol.seek(10).unwrap();
    assert_eq!(sobol.advance((1u64 << 32) - 10), Err(SobolError));
    assert_eq!(sobol.advance(u64::MAX), Err(SobolError));
    assert_eq!(sobol.advance(u64::MAX - 9), Err(SobolError));
    assert_eq!(sobol.index(), 10);
    assert_eq!(sobol.advance((1u64 << 32) - 11), Ok(()));
    assert_eq!(sobol.index(), (1u64 << 32) - 1);
}

#[test]
fn the_last_point_is_given_and_then_none() {
    let mut sobol = Sobol::new(1).unwrap();
    let last = (1u64 << 32) - 1;
    sobol.seek(last).unwrap();
    // The Gray code of the last index has only bit 31 set, and column 31
    // holds the lowest bit.
    assert_eq!(sobol.next_vec().unwrap(), vec![1]);
    assert_eq!(sobol.index(), 1u64 << 32);
    assert_eq!(sobol.next_vec().err(), Some(SobolError));
    let mut out = [7u32; 1];
    assert_eq!(sobol.next_point(&mut out), Err(SobolError));
    assert_eq!(out, [7]);
    assert_eq!(sobol.index(), 1u64 << 32);
    assert_eq!(sobol.advance(0), Err(SobolError));
    sobol.reset();
    assert_eq!(sobol.next_vec().unwrap(), vec![0]);
}

#[test]
fn reset_goes_back_to_the_start() {
    let mut sobol = Sobol::with_directions(vec![default_directions_dim1()[0], second_directions()])
        .unwrap();
    let first = sobol.next_vec().unwrap();
    let second = sobol.next_vec().unwrap();
    sobol.seek(1000).unwrap();
    sobol.reset();
    assert_eq!(sobol.index(), 0);
    assert_eq!(sobol.next_vec().unwrap(), first);
    assert_eq!(sobol.next_vec().unwrap(), second);
}

#[test]
fn clone_runs_on_its_own() {
    let mut sobol = Sobol::new(1).unwrap();
    sobol.seek(2).unwrap();
    let mut copy = sobol.clone();
    assert_eq!(sobol.next_vec().unwrap(), vec![0xC000_0000]);
    assert_eq!(copy.index(), 2);
    assert_eq!(copy.next_vec().unwrap(), vec![0xC000_0000]);
}
