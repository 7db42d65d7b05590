use ak::rng::mgk32a::Mgk32a;
use ak::rng::RngCore;

struct CounterRng {
    next: u32,
}

impl CounterRng {
    fn new(start: u32) -> Self {
        Self { next: start }
    }
}

impl RngCore for CounterRng {
    fn next_u32(&mut self) -> u32 {
        let value = self.next;
        self.next = self.next.wrapping_add(1);
        value
    }
}

#[test]
fn next_u64_combines_two_u32s() {
    let mut rng = CounterRng::new(1);
    let value = rng.next_u64();
    let expected = ((1u64) << 32) | 2u64;
    assert_eq!(value, expected);
}

#[test]
fn fill_bytes_handles_short_and_partial_buffers() {
    let mut rng = CounterRng::new(0);
    let mut short = [0u8; 3];
    rng.fill_bytes(&mut short);
    let expected_short = 1u64.to_le_bytes();
    assert_eq!(&short, &expected_short[..3]);

    let mut buffer = [0u8; 9];
    rng.fill_bytes(&mut buffer);
    let first_value = (2u64 << 32) | 3u64;
    let first = first_value.to_le_bytes();
    let second_value = (4u64 << 32) | 5u64;
    let second = second_value.to_le_bytes();
    let mut expected = [0u8; 9];
    expected[..8].copy_from_slice(&first);
    expected[8] = second[0];
    assert_eq!(buffer, expected);
}

#[test]
fn fill_bytes_on_an_empty_buffer_draws_nothing() {
    let mut rng = CounterRng::new(5);
    let mut empty: [u8; 0] = [];
    rng.fill_bytes(&mut empty);
    assert_eq!(rng.next_u32(), 5);
}

#[test]
fn fill_bytes_on_whole_words_uses_exactly_those_words() {
    let mut rng = CounterRng::new(0x0102_0304);
    let mut buffer = [0u8; 16];
    rng.fill_bytes(&mut buffer);
    let first = ((0x0102_0304u64 << 32) | 0x0102_0305u64).to_le_bytes();
    let second = ((0x0102_0306u64 << 32) | 0x0102_0307u64).to_le_bytes();
    assert_eq!(&buffer[..8], &first);
    assert_eq!(&buffer[8..], &second);
    assert_eq!(rng.next_u32(), 0x0102_0308);
}

#[test]
fn generator_fills_bytes_from_its_own_draws() {
    let seed = [12345u64; 6];
    let mut words = Mgk32a::new(seed).unwrap();
    let mut bytes = Mgk32a::new(seed).unwrap();
    let mut buffer = [0u8; 11];
    bytes.fill_bytes(&mut buffer);
    let first = words.next_u64();
    let second = words.next_u64();
    assert_eq!(first, (545_508_589u64 << 32) | 1_368_065_410u64);
    assert_eq!(&buffer[..8], &first.to_le_bytes());
    assert_eq!(&buffer[8..], &second.to_le_bytes()[..3]);
    assert_eq!(words.state(), bytes.state());
}
