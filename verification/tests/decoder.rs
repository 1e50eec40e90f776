use anspass::asymmetric_numeral_system::{ANSDecode, ConfigError, SimpleClass, WeightedSymbols};
use anspass::symbol_generator::SymbolEmitter;
use anspass::required_symbols::ClassWeight;
use anspass::symbol_generator::UniformSymbolSet;

fn decoder_with_state(state_bytes: [u8; 8]) -> ANSDecode {
    ANSDecode::new(state_bytes.to_vec())
}

#[test]
fn find_bin_buckets_match_weights() {
    // weights [5,5,1,1], sum 12: remainders map to bins
    // [0,5) -> 0, [5,10) -> 1, [10,11) -> 2, [11,12) -> 3
    let w = anspass::site_rules::bob();
    for rem in 0..5u64 {
        assert_eq!(0, w.find_bin(rem));
    }
    for rem in 5..10u64 {
        assert_eq!(1, w.find_bin(rem));
    }
    assert_eq!(2, w.find_bin(10));
    assert_eq!(3, w.find_bin(11));
}

#[test]
fn decode_uniform_returns_remainder_and_reduces_state() {
    // state 12, modulus 12: index 0, quotient 1, no byte left to load
    let mut ans = decoder_with_state([12, 0, 0, 0, 0, 0, 0, 0]);
    assert_eq!(Some(0), ans.decode_uniform(12));
    // state is now 1: the next decode has quotient 0 and is exhausted
    assert_eq!(None, ans.decode_uniform(12));
}

#[test]
fn decode_uniform_exhausts_without_producing_degraded_index() {
    // state 7 < modulus 12: quotient 0 from the start
    let mut ans = decoder_with_state([7, 0, 0, 0, 0, 0, 0, 0]);
    assert_eq!(None, ans.decode_uniform(12));
    // exhaustion left the decoder unchanged, so it repeats identically
    assert_eq!(None, ans.decode_uniform(12));
}

#[test]
fn decode_uniform_from_picks_indexed_symbol() {
    // state 3*7+5 = 26: remainder 5 picks 'f', quotient 3 remains
    let table: Vec<char> = vec!['a', 'b', 'c', 'd', 'e', 'f', 'g'];
    let mut ans = decoder_with_state([5 + 7 * 3, 0, 0, 0, 0, 0, 0, 0]);
    assert_eq!(Some(&'f'), ans.decode_uniform_from(&table));
}

#[test]
fn decode_binary_quantizes_to_cap_exactly() {
    // weights (3,1) with cap 2 scale to (1,1): a'+b' == cap exactly.
    // state 2: remainder 0 < a'=1 picks the first bucket; without the
    // rescaling the quotient 2/4 would be 0 and the decode exhausted.
    let mut ans = decoder_with_state([2, 0, 0, 0, 0, 0, 0, 0]);
    assert_eq!(Some(false), ans.decode_binary(3, 1, 2));
    // state 3: remainder 1 >= a'=1 picks the second bucket; with b'
    // truncated to 0 instead, the second bucket could never be chosen.
    let mut ans = decoder_with_state([3, 0, 0, 0, 0, 0, 0, 0]);
    assert_eq!(Some(true), ans.decode_binary(3, 1, 2));
}

#[test]
fn decode_binary_zero_b_never_picks_second_bucket() {
    for state in 1..=20u8 {
        let mut ans = decoder_with_state([state, 0, 0, 0, 0, 0, 0, 0]);
        assert_ne!(Some(true), ans.decode_binary(5, 0, 1 << 32));
    }
}

#[test]
fn decode_from_weights_exhausts_below_weight_sum() {
    let w = anspass::site_rules::bob();
    // state 11 < weight sum 12: quotient 0
    let mut ans = decoder_with_state([11, 0, 0, 0, 0, 0, 0, 0]);
    assert_eq!(None, ans.decode_from_weights(&w));
}

#[test]
fn weighted_symbols_rejects_empty_alphabet() {
    let dict: Vec<ClassWeight<char>> = vec![];
    match WeightedSymbols::new(dict) {
        Err(ConfigError::EmptyAlphabet) => {}
        _ => panic!("empty alphabet must be rejected"),
    }
}

#[test]
fn weighted_symbols_rejects_zero_weight() {
    let dict = vec![ClassWeight::new('a', 3), ClassWeight::new('b', 0)];
    match WeightedSymbols::new(dict) {
        Err(ConfigError::ZeroWeight) => {}
        _ => panic!("zero weight must be rejected"),
    }
}

#[test]
fn uniform_set_rejects_empty_symbol_list() {
    let symbols: Vec<char> = vec![];
    match UniformSymbolSet::new(symbols) {
        Err(ConfigError::EmptyAlphabet) => {}
        _ => panic!("empty symbol set must be rejected"),
    }
}

#[test]
fn weighted_symbols_emit_class_through_trait() {
    let mut w = anspass::site_rules::bob();
    // state 40: remainder 4 falls in the Upper bucket [0,5)
    let mut ans = decoder_with_state([40, 0, 0, 0, 0, 0, 0, 0]);
    assert_eq!(Some(SimpleClass::Upper), w.emit_symbol(&mut ans));
    // state 46: remainder 10 falls in the Digit bucket [10,11)
    let mut ans = decoder_with_state([46, 0, 0, 0, 0, 0, 0, 0]);
    assert_eq!(Some(SimpleClass::Digit), w.emit_symbol(&mut ans));
}

#[test]
fn uniform_set_emits_indexed_symbol() {
    let mut u = UniformSymbolSet::new(vec!['x', 'y', 'z']).unwrap();
    // state 10: remainder 1 picks 'y', quotient 3 remains
    let mut ans = decoder_with_state([10, 0, 0, 0, 0, 0, 0, 0]);
    assert_eq!(Some('y'), u.emit_symbol(&mut ans));
}

#[test]
fn renormalization_loads_bytes_in_order() {
    // state starts at 1 (below the renormalization threshold), so the
    // first decode of modulus 1 loads the ninth byte into the top bits
    let mut ans = ANSDecode::new(vec![1, 0, 0, 0, 0, 0, 0, 0, 9]);
    // modulus 1: remainder always 0, state unchanged by division
    assert_eq!(Some(0), ans.decode_uniform(1));
    // the loaded byte makes the state 9 << 56 | 1; decode by 1 << 56
    // leaves quotient 9 and remainder 1
    let big: usize = 1 << 56;
    assert_eq!(Some(1), ans.decode_uniform(big));
}
