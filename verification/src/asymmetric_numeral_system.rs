//! The ANS decoder: a 64-bit state register fed from a byte source,
//! together with the weighted-alphabet lookup used to map a state
//! remainder to a symbol.

use vstd::prelude::*;

verus! {

/// Renormalization threshold: a byte is loaded into the top byte of the
/// state register whenever the register drops below this value.
pub const RENORM_LIMIT: u64 = 0x100_0000_0000_0000;

/// Abstract state of an ANS decoder: the 64-bit state register together
/// with the digest bytes that have not yet been loaded.
pub ghost struct AnsView {
    pub state: u64,
    pub rest: Seq<u8>,
}

/// The value of a byte sequence read as a little-endian integer
/// (byte `i` contributes `b[i] * 256^i`).
pub open spec fn le_bytes(b: Seq<u8>) -> nat
    decreases b.len(),
{
    if b.len() == 0 {
        0
    } else {
        (b[0] + 256 * le_bytes(b.drop_first())) as nat
    }
}

/// `256^n`, the number of values a sequence of `n` bytes can take.
pub open spec fn pow256(n: nat) -> nat
    decreases n,
{
    if n == 0 {
        1
    } else {
        256 * pow256((n - 1) as nat)
    }
}

pub proof fn lemma_pow256_le(m: nat, n: nat)
    requires
        m <= n,
    ensures
        pow256(m) <= pow256(n),
    decreases n,
{
    if m < n {
        lemma_pow256_le(m, (n - 1) as nat);
    }
}

pub proof fn lemma_le_bytes_bound(b: Seq<u8>)
    ensures
        le_bytes(b) < pow256(b.len()),
    decreases b.len(),
{
    if b.len() == 0 {
    } else {
        lemma_le_bytes_bound(b.drop_first());
    }
}

/// The renormalization step: if the proposed state is below the
/// threshold and a byte remains, that byte becomes the new top byte.
pub open spec fn spec_maybe_load(st: AnsView, new_state: u64) -> AnsView {
    if new_state < RENORM_LIMIT && st.rest.len() > 0 {
        AnsView {
            state: (new_state + st.rest[0] * RENORM_LIMIT) as u64,
            rest: st.rest.drop_first(),
        }
    } else {
        AnsView { state: new_state, rest: st.rest }
    }
}

/// One uniform decode step over `modulus` outcomes: the remainder is the
/// sampled index, the quotient (renormalized) is the next state.  A zero
/// quotient means the remaining entropy is exhausted.
pub open spec fn spec_decode_uniform(st: AnsView, modulus: u64) -> Option<(u64, AnsView)>
    recommends
        modulus >= 1,
{
    let q = st.state / modulus;
    if q == 0 {
        None
    } else {
        Some((st.state % modulus, spec_maybe_load(st, q)))
    }
}

/// The decoder state right after construction from a digest: the first
/// 8 bytes fill the register little-endian, the rest await loading.
pub open spec fn spec_ans_new(bytes: Seq<u8>) -> AnsView {
    AnsView { state: le_bytes(bytes.take(8)) as u64, rest: bytes.skip(8) }
}

/// An ANS decoder owning its byte source.  Construction consumes the
/// first 8 bytes to fill the state register; each renormalization step
/// consumes at most one further byte, strictly in order.
pub struct ANSDecode {
    bytes: Vec<u8>,
    cursor: usize,
    state: u64,
}

impl View for ANSDecode {
    type V = AnsView;

    closed spec fn view(&self) -> AnsView {
        AnsView { state: self.state, rest: self.bytes@.skip(self.cursor as int) }
    }
}

impl ANSDecode {
    pub closed spec fn wf(&self) -> bool {
        self.cursor <= self.bytes@.len()
    }

    /// Builds the decoder from a digest of at least 8 bytes; the first 8
    /// fill the state register little-endian, the rest feed
    /// renormalization.  A shorter digest is a caller error.
    pub fn new(byte_source: Vec<u8>) -> (r: Self)
        requires
            byte_source@.len() >= 8,
        ensures
            r.wf(),
            r@ == spec_ans_new(byte_source@),
            r@.state == le_bytes(byte_source@.take(8)),
            r@.rest == byte_source@.skip(8),
    {
        let mut state: u64 = 0;
        let mut i: usize = 8;
        while i > 0
            invariant
                i <= 8,
                byte_source@.len() >= 8,
                state == le_bytes(byte_source@.subrange(i as int, 8)),
                state < pow256((8 - i) as nat),
            decreases i,
        {
            proof {
                lemma_le_bytes_bound(byte_source@.subrange(i as int, 8));
                assert(byte_source@.subrange(i - 1, 8).drop_first() =~= byte_source@.subrange(
                    i as int,
                    8,
                ));
                assert(pow256((8 - (i - 1)) as nat) == 256 * pow256((8 - i) as nat));
                lemma_pow256_le((8 - (i - 1)) as nat, 8);
                reveal_with_fuel(pow256, 9);
                assert(pow256(8) == 0x1_0000_0000_0000_0000) by {
                    reveal_with_fuel(pow256, 9);
                }
            }
            let b = byte_source[i - 1];
            state = state * 256 + (b as u64);
            i = i - 1;
        }
        proof {
            assert(byte_source@.subrange(0, 8) =~= byte_source@.take(8));
        }
        Self { bytes: byte_source, cursor: 8, state }
    }

    /// Renormalization: installs the proposed state, loading one byte
    /// into the top byte position when the state has dropped below the
    /// threshold and a byte remains.  The only place bytes are consumed.
    fn set_state_maybe_load(&mut self, new_state: u64)
        requires
            old(self).wf(),
        ensures
            final(self).wf(),
            final(self)@ == spec_maybe_load(old(self)@, new_state),
    {
        let mut s = new_state;
        if new_state < RENORM_LIMIT {
            if self.cursor < self.bytes.len() {
                let b = self.bytes[self.cursor];
                s = new_state + (b as u64) * RENORM_LIMIT;
                self.cursor = self.cursor + 1;
                proof {
                    assert(old(self)@.rest[0] == b);
                    assert(self.bytes@.skip(self.cursor as int) =~= old(self)@.rest.drop_first());
                }
            }
        }
        self.state = s;
    }

    /// Samples an index uniformly from `[0, modulus)`, or reports
    /// entropy exhaustion (leaving the decoder unchanged) when the
    /// post-division quotient is zero.
    pub fn decode_uniform(&mut self, modulus: usize) -> (r: Option<usize>)
        requires
            old(self).wf(),
            modulus >= 1,
        ensures
            final(self).wf(),
            match spec_decode_uniform(old(self)@, modulus as u64) {
                None => r is None && final(self)@ == old(self)@,
                Some((idx, st)) => r == Some(idx as usize) && final(self)@ == st,
            },
    {
        let m = modulus as u64;
        let rem = self.state % m;
        let x = self.state / m;
        if x == 0 {
            return None;
        }
        self.set_state_maybe_load(x);
        Some(rem as usize)
    }

    /// Picks one element of `symbols` uniformly, or reports exhaustion.
    pub fn decode_uniform_from<'a, S>(&mut self, symbols: &'a [S]) -> (r: Option<&'a S>)
        requires
            old(self).wf(),
            symbols@.len() >= 1,
        ensures
            final(self).wf(),
            match spec_decode_uniform(old(self)@, symbols@.len() as u64) {
                None => r is None && final(self)@ == old(self)@,
                Some((idx, st)) => match r {
                    Some(s) => *s == symbols@[idx as int] && final(self)@ == st,
                    None => false,
                },
            },
    {
        let n = symbols.len();
        match self.decode_uniform(n) {
            None => None,
            Some(i) => Some(&symbols[i]),
        }
    }
}

/// Why a weighted alphabet was rejected at construction.
#[derive(Debug, Clone, Copy, PartialEq, Eq, Structural)]
pub enum ConfigError {
    /// The list of symbol/weight pairs was empty.
    EmptyAlphabet,
    /// Some weight was zero; every weight must be positive.
    ZeroWeight,
    /// The weights sum to more than a 64-bit register can hold.
    WeightSumOverflow,
}

/// The sum of a sequence of weights.
pub open spec fn sum_weights(ws: Seq<u32>) -> int
    decreases ws.len(),
{
    if ws.len() == 0 {
        0
    } else {
        sum_weights(ws.drop_last()) + ws.last()
    }
}

/// A weighted alphabet: symbols with positive weights, indexed by the
/// cumulative-offset array that partitions `[0, weight_sum)` into one
/// contiguous range per symbol, of length equal to the symbol's weight.
pub struct WeightedSymbols<S> {
    weight_sum: u64,
    weights: Vec<u32>,
    offsets: Vec<u64>,
    symbols: Vec<S>,
}

impl<S> WeightedSymbols<S> {
    pub closed spec fn spec_weights(&self) -> Seq<u32> {
        self.weights@
    }

    pub closed spec fn spec_offsets(&self) -> Seq<u64> {
        self.offsets@
    }

    pub closed spec fn spec_symbols(&self) -> Seq<S> {
        self.symbols@
    }

    pub closed spec fn spec_weight_sum(&self) -> u64 {
        self.weight_sum
    }

    /// The construction invariant: offsets are the partial sums of the
    /// weights, every weight is positive, and `weight_sum` is the total.
    pub open spec fn well_formed(&self) -> bool {
        &&& self.spec_offsets().len() == self.spec_weights().len()
        &&& self.spec_symbols().len() == self.spec_weights().len()
        &&& self.spec_weights().len() >= 1
        &&& self.spec_offsets()[0] == 0
        &&& forall|i: int|
            1 <= i < self.spec_offsets().len() ==> #[trigger] self.spec_offsets()[i]
                == self.spec_offsets()[i - 1] + self.spec_weights()[i - 1]
        &&& forall|i: int|
            0 <= i < self.spec_weights().len() ==> #[trigger] self.spec_weights()[i] >= 1
        &&& self.spec_weight_sum() == self.spec_offsets()[self.spec_offsets().len() - 1]
            + self.spec_weights()[self.spec_weights().len() - 1]
    }

    /// A symbol's whole range lies before every later symbol's offset.
    pub proof fn lemma_offsets_ordered(&self, i: int, j: int)
        requires
            self.well_formed(),
            0 <= i < j < self.spec_offsets().len(),
        ensures
            self.spec_offsets()[i] + self.spec_weights()[i] <= self.spec_offsets()[j],
        decreases j - i,
    {
        if j > i + 1 {
            self.lemma_offsets_ordered(i, j - 1);
        }
    }

    /// Every symbol's range lies inside `[0, weight_sum)`.
    pub proof fn lemma_range_in_sum(&self, i: int)
        requires
            self.well_formed(),
            0 <= i < self.spec_offsets().len(),
        ensures
            self.spec_offsets()[i] + self.spec_weights()[i] <= self.spec_weight_sum(),
    {
        if i < self.spec_offsets().len() - 1 {
            self.lemma_offsets_ordered(i, self.spec_offsets().len() - 1);
        }
    }

    /// The index of the symbol whose range contains `rem`.
    pub open spec fn spec_find_bin(&self, rem: u64) -> int {
        choose|i: int|
            0 <= i < self.spec_offsets().len() && #[trigger] self.spec_offsets()[i] <= rem
                < self.spec_offsets()[i] + self.spec_weights()[i]
    }

    /// At most one symbol's range contains any given remainder.
    pub proof fn lemma_bin_unique(&self, rem: u64, i: int, j: int)
        requires
            self.well_formed(),
            0 <= i < self.spec_offsets().len(),
            0 <= j < self.spec_offsets().len(),
            self.spec_offsets()[i] <= rem < self.spec_offsets()[i] + self.spec_weights()[i],
            self.spec_offsets()[j] <= rem < self.spec_offsets()[j] + self.spec_weights()[j],
        ensures
            i == j,
    {
        if i < j {
            self.lemma_offsets_ordered(i, j);
        }
        if j < i {
            self.lemma_offsets_ordered(j, i);
        }
    }

    /// Builds the alphabet from symbol/weight pairs, in order, rejecting
    /// an empty list, a zero weight, or a weight total beyond 64 bits.
    pub fn new(dictionary: Vec<crate::required_symbols::ClassWeight<S>>) -> (r: Result<
        Self,
        ConfigError,
    >)
        ensures
            match r {
                Ok(w) => {
                    &&& w.well_formed()
                    &&& dictionary@.len() >= 1
                    &&& w.spec_weights() == dictionary@.map_values(
                        |cw: crate::required_symbols::ClassWeight<S>| cw.weight,
                    )
                    &&& w.spec_symbols() =~= dictionary@.map_values(
                        |cw: crate::required_symbols::ClassWeight<S>| cw.class,
                    )
                    &&& w.spec_weight_sum() == sum_weights(
                        dictionary@.map_values(
                            |cw: crate::required_symbols::ClassWeight<S>| cw.weight,
                        ),
                    )
                },
                Err(ConfigError::EmptyAlphabet) => dictionary@.len() == 0,
                Err(ConfigError::ZeroWeight) => dictionary@.len() >= 1 && exists|i: int|
                    0 <= i < dictionary@.len() && #[trigger] dictionary@[i].weight == 0,
                Err(ConfigError::WeightSumOverflow) => {
                    &&& dictionary@.len() >= 1
                    &&& forall|i: int|
                        0 <= i < dictionary@.len() ==> #[trigger] dictionary@[i].weight >= 1
                    &&& sum_weights(
                        dictionary@.map_values(
                            |cw: crate::required_symbols::ClassWeight<S>| cw.weight,
                        ),
                    ) > u64::MAX
                },
            },
    {
        if dictionary.len() == 0 {
            return Err(ConfigError::EmptyAlphabet);
        }
        let ghost all_weights = dictionary@.map_values(
            |cw: crate::required_symbols::ClassWeight<S>| cw.weight,
        );
        let mut k: usize = 0;
        while k < dictionary.len()
            invariant
                k <= dictionary@.len(),
                forall|i: int| 0 <= i < k ==> #[trigger] dictionary@[i].weight >= 1,
            decreases dictionary@.len() - k,
        {
            if dictionary[k].weight == 0 {
                return Err(ConfigError::ZeroWeight);
            }
            k = k + 1;
        }
        let mut weight_sum: u64 = 0;
        let mut offsets: Vec<u64> = Vec::new();
        let mut weights: Vec<u32> = Vec::new();
        let mut symbols: Vec<S> = Vec::new();
        let mut dict = dictionary;
        let ghost consumed: int = 0;
        while dict.len() > 0
            invariant
                0 <= consumed <= all_weights.len(),
                all_weights == dictionary@.map_values(
                    |cw: crate::required_symbols::ClassWeight<S>| cw.weight,
                ),
                dict@ =~= dictionary@.subrange(consumed, dictionary@.len() as int),
                weights@ =~= all_weights.take(consumed),
                symbols@ =~= dictionary@.map_values(
                    |cw: crate::required_symbols::ClassWeight<S>| cw.class,
                ).take(consumed),
                offsets@.len() == consumed,
                weight_sum == sum_weights(all_weights.take(consumed)),
                forall|i: int| 0 <= i < dictionary@.len() ==> #[trigger] dictionary@[i].weight >= 1,
                consumed >= 1 ==> offsets@[0] == 0,
                forall|i: int|
                    1 <= i < consumed ==> #[trigger] offsets@[i] == offsets@[i - 1]
                        + weights@[i - 1],
                consumed >= 1 ==> weight_sum == offsets@[consumed - 1] + weights@[consumed - 1],
            decreases dict@.len(),
        {
            let cw = dict.remove(0);
            assert(cw == dictionary@[consumed]);
            let w: u32 = cw.weight;
            if weight_sum > u64::MAX - (w as u64) {
                proof {
                    lemma_sum_weights_nonneg(all_weights.skip(consumed + 1));
                    lemma_sum_weights_split(all_weights, consumed + 1);
                    assert(all_weights.take(consumed + 1).drop_last() =~= all_weights.take(
                        consumed,
                    ));
                    assert(sum_weights(all_weights.take(consumed + 1)) == weight_sum + w);
                }
                return Err(ConfigError::WeightSumOverflow);
            }
            offsets.push(weight_sum);
            weights.push(w);
            symbols.push(cw.class);
            weight_sum = weight_sum + (w as u64);
            proof {
                consumed = consumed + 1;
                assert(all_weights.take(consumed).drop_last() =~= all_weights.take(consumed - 1));
            }
        }
        proof {
            assert(all_weights.take(consumed) =~= all_weights);
            assert(dictionary@.map_values(
                |cw: crate::required_symbols::ClassWeight<S>| cw.class,
            ).take(consumed) =~= dictionary@.map_values(
                |cw: crate::required_symbols::ClassWeight<S>| cw.class,
            ));
        }
        Ok(Self { weight_sum, weights, offsets, symbols })
    }

    /// Binary search for the symbol whose cumulative range contains the
    /// remainder.
    pub fn find_bin(&self, remainder: u64) -> (r: usize)
        requires
            self.well_formed(),
            remainder < self.spec_weight_sum(),
        ensures
            r < self.spec_offsets().len(),
            self.spec_offsets()[r as int] <= remainder < self.spec_offsets()[r as int]
                + self.spec_weights()[r as int],
            r == self.spec_find_bin(remainder),
    {
        let len = self.offsets.len();
        let mut lo: usize = 0;
        let mut hi: usize = len;
        proof {
            self.lemma_range_in_sum(len - 1);
        }
        while hi - lo > 1
            invariant
                self.well_formed(),
                remainder < self.spec_weight_sum(),
                lo < hi <= len,
                len == self.spec_offsets().len(),
                self.spec_offsets()[lo as int] <= remainder,
                hi < len ==> self.spec_offsets()[hi as int] > remainder,
                hi == len ==> remainder < self.spec_offsets()[len - 1] + self.spec_weights()[len
                    - 1],
            decreases hi - lo,
        {
            let mid = lo + (hi - lo) / 2;
            if self.offsets[mid] <= remainder {
                lo = mid;
            } else {
                hi = mid;
            }
        }
        proof {
            if lo + 1 < len {
                assert(self.spec_offsets()[lo + 1] == self.spec_offsets()[lo as int]
                    + self.spec_weights()[lo as int]);
            }
            self.lemma_bin_unique(remainder, lo as int, self.spec_find_bin(remainder));
        }
        lo
    }

    /// One weighted decode step on a raw state value: the remainder
    /// selects a symbol, and the state is reduced by that symbol's
    /// weight, keeping the phase within the symbol's range.
    pub open spec fn spec_do_ans(&self, state: u64) -> (int, u64) {
        let rem = state % self.spec_weight_sum();
        let x = state / self.spec_weight_sum();
        let i = self.spec_find_bin(rem);
        (i, (x * self.spec_weights()[i] + (rem - self.spec_offsets()[i])) as u64)
    }

    /// Maps a state to the selected symbol and the reduced state.
    pub fn do_ans<'a>(&'a self, state: u64) -> (r: (&'a S, u64))
        requires
            self.well_formed(),
        ensures
            0 <= self.spec_do_ans(state).0 < self.spec_symbols().len(),
            *r.0 == self.spec_symbols()[self.spec_do_ans(state).0],
            r.1 == self.spec_do_ans(state).1,
            r.1 <= state,
    {
        proof {
            assert(self.spec_weights()[self.spec_weights().len() - 1] >= 1);
        }
        let rem = state % self.weight_sum;
        let x = state / self.weight_sum;
        let i = self.find_bin(rem);
        let phase = rem - self.offsets[i];
        let symbol = &self.symbols[i];
        proof {
            self.lemma_range_in_sum(i as int);
            vstd::arithmetic::mul::lemma_mul_inequality(
                self.spec_weights()[i as int] as int,
                self.spec_weight_sum() as int,
                x as int,
            );
            vstd::arithmetic::div_mod::lemma_fundamental_div_mod(
                state as int,
                self.spec_weight_sum() as int,
            );
            assert((x as int) * (self.spec_weights()[i as int] as int) + phase <= state as int);
        }
        let new_state = x * (self.weights[i] as u64) + phase;
        (symbol, new_state)
    }
}

/// One weighted decode step: exhaustion if the quotient by the weight
/// sum is zero, else the symbol index picked by `spec_do_ans` and the
/// renormalized reduced state.
pub open spec fn spec_decode_from_weights<S>(st: AnsView, w: &WeightedSymbols<S>) -> Option<
    (int, AnsView),
> {
    let q = st.state / w.spec_weight_sum();
    if q == 0 {
        None
    } else {
        let (i, ns) = w.spec_do_ans(st.state);
        Some((i, spec_maybe_load(st, ns)))
    }
}

/// The two-bucket weights actually used by a binary decode: scaled to
/// sum exactly to `cap` when the given weights exceed it (the second
/// bucket absorbing the truncation remainder), kept verbatim otherwise.
pub open spec fn spec_quantized(a: u64, b: u64, cap: u64) -> (int, int, int) {
    if a + b > cap {
        let a1 = (a * cap) / (a + b);
        (a1, cap - a1, cap as int)
    } else {
        (a as int, b as int, a + b)
    }
}

/// One binary decode step over quantized weights `(a1, b1)`: `false`
/// when the remainder falls in the first bucket, `true` in the second.
pub open spec fn spec_decode_binary(st: AnsView, a: u64, b: u64, cap: u64) -> Option<
    (bool, AnsView),
>
    recommends
        a + b >= 1,
        cap >= 1,
{
    let (a1, b1, sum) = spec_quantized(a, b, cap);
    let rem = st.state as int % sum;
    let x = st.state as int / sum;
    if x == 0 {
        None
    } else if rem < a1 {
        Some((false, spec_maybe_load(st, (x * a1 + rem) as u64)))
    } else {
        Some((true, spec_maybe_load(st, (x * b1 + (rem - a1)) as u64)))
    }
}

impl ANSDecode {
    /// Decodes one symbol of a weighted alphabet, or reports exhaustion
    /// (leaving the decoder unchanged) when the quotient by the weight
    /// sum is zero.
    pub fn decode_from_weights<'a, S>(&mut self, weights: &'a WeightedSymbols<S>) -> (r: Option<
        &'a S,
    >)
        requires
            old(self).wf(),
            weights.well_formed(),
        ensures
            final(self).wf(),
            match spec_decode_from_weights(old(self)@, weights) {
                None => r is None && final(self)@ == old(self)@,
                Some((i, st)) => 0 <= i < weights.spec_symbols().len() && match r {
                    Some(s) => *s == weights.spec_symbols()[i] && final(self)@ == st,
                    None => false,
                },
            },
    {
        proof {
            assert(weights.spec_weights()[weights.spec_weights().len() - 1] >= 1);
        }
        let x = self.state / weights.weight_sum;
        if x == 0 {
            return None;
        }
        let (symbol, new_state) = weights.do_ans(self.state);
        self.set_state_maybe_load(new_state);
        Some(symbol)
    }

    /// Decodes one binary choice between weights `a` and `b`, first
    /// scaling them to sum to at most `max_quantization` (truncating
    /// toward zero, the second bucket absorbing the remainder so the
    /// scaled weights sum to the cap exactly).  Returns `false` for the
    /// `a` bucket, `true` for the `b` bucket, or `None` on exhaustion
    /// (decoder unchanged).  A zero `b` weight can never choose `true`.
    pub fn decode_binary(&mut self, a: u64, b: u64, max_quantization: u64) -> (r: Option<bool>)
        requires
            old(self).wf(),
            a + b >= 1,
            max_quantization >= 1,
        ensures
            final(self).wf(),
            match spec_decode_binary(old(self)@, a, b, max_quantization) {
                None => r is None && final(self)@ == old(self)@,
                Some((use_b, st)) => r == Some(use_b) && final(self)@ == st,
            },
            b == 0 ==> r != Some(true),
    {
        let cap = max_quantization;
        let a1: u64;
        let b1: u64;
        let sum: u64;
        let sum128: u128 = (a as u128) + (b as u128);
        if sum128 > cap as u128 {
            proof {
                vstd::arithmetic::mul::lemma_mul_upper_bound(
                    a as int,
                    u64::MAX as int,
                    cap as int,
                    u64::MAX as int,
                );
            }
            let q128: u128 = ((a as u128) * (cap as u128)) / sum128;
            proof {
                vstd::arithmetic::mul::lemma_mul_inequality(a as int, sum128 as int, cap as int);
                vstd::arithmetic::div_mod::lemma_div_is_ordered(
                    (a as int) * (cap as int),
                    (sum128 as int) * (cap as int),
                    sum128 as int,
                );
                vstd::arithmetic::div_mod::lemma_div_multiples_vanish(
                    cap as int,
                    sum128 as int,
                );
                assert(q128 <= cap);
            }
            a1 = q128 as u64;
            b1 = cap - a1;
            sum = cap;
        } else {
            a1 = a;
            b1 = b;
            sum = a + b;
        }
        let rem = self.state % sum;
        let x = self.state / sum;
        if x == 0 {
            return None;
        }
        proof {
            vstd::arithmetic::div_mod::lemma_fundamental_div_mod(self.state as int, sum as int);
        }
        proof {
            assert(self.state as int == (sum as int) * (x as int) + rem);
        }
        if rem < a1 {
            proof {
                vstd::arithmetic::mul::lemma_mul_inequality(a1 as int, sum as int, x as int);
                vstd::arithmetic::mul::lemma_mul_is_commutative(x as int, a1 as int);
                vstd::arithmetic::mul::lemma_mul_is_commutative(x as int, sum as int);
                assert((a1 as int) * (x as int) <= (sum as int) * (x as int));
                assert((x as int) * (a1 as int) + rem <= self.state as int);
            }
            let ns = x * a1 + rem;
            self.set_state_maybe_load(ns);
            Some(false)
        } else {
            proof {
                vstd::arithmetic::mul::lemma_mul_inequality(b1 as int, sum as int, x as int);
                vstd::arithmetic::mul::lemma_mul_is_commutative(x as int, b1 as int);
                vstd::arithmetic::mul::lemma_mul_is_commutative(x as int, sum as int);
                assert((x as int) * (b1 as int) + (rem - a1) <= self.state as int);
            }
            let ns = x * b1 + (rem - a1);
            self.set_state_maybe_load(ns);
            Some(true)
        }
    }
}

impl<S: Copy> crate::symbol_generator::SymbolEmitter<S> for WeightedSymbols<S> {
    open spec fn wf(&self) -> bool {
        self.well_formed()
    }

    open spec fn spec_emit(&self, st: AnsView) -> (Option<S>, Self, AnsView) {
        match spec_decode_from_weights(st, self) {
            None => (None, *self, st),
            Some((i, st2)) => (Some(self.spec_symbols()[i]), *self, st2),
        }
    }

    open spec fn can_emit(&self, s: S) -> bool {
        self.spec_symbols().contains(s)
    }

    open spec fn req_count(&self) -> nat {
        0
    }

    open spec fn req_slots(&self) -> nat {
        0
    }

    open spec fn is_required_symbol(&self, s: S) -> bool {
        false
    }

    proof fn lemma_req_le_slots(&self) {
    }

    fn emit_symbol(&mut self, ans: &mut ANSDecode) -> (r: Option<S>) {
        match ans.decode_from_weights(self) {
            None => None,
            Some(sym) => {
                let s = *sym;
                proof {
                    let (i, st2) = spec_decode_from_weights(old(ans)@, old(self))->Some_0;
                    assert(self.spec_symbols()[i] == s);
                    assert(self.spec_symbols().contains(s));
                }
                Some(s)
            },
        }
    }
}

/// A two-stage sampler: an outer weighted choice among symbol classes,
/// each class a uniform-pick leaf of its own size, so the outer weights
/// control inter-class proportions independently of inner set sizes.
pub struct Weighted2Stage<T> {
    layer1: WeightedSymbols<crate::symbol_generator::UniformSymbolSet<T>>,
}

impl<T> Weighted2Stage<T> {
    pub closed spec fn spec_layer1(&self) -> WeightedSymbols<
        crate::symbol_generator::UniformSymbolSet<T>,
    > {
        self.layer1
    }

    /// The outer alphabet is well-formed and every inner set non-empty.
    pub open spec fn well_formed(&self) -> bool {
        &&& self.spec_layer1().well_formed()
        &&& forall|i: int|
            0 <= i < self.spec_layer1().spec_symbols().len()
                ==> (#[trigger] self.spec_layer1().spec_symbols()[i]).spec_symbols().len() >= 1
    }

    pub fn new(classes: WeightedSymbols<crate::symbol_generator::UniformSymbolSet<T>>) -> (r:
        Self)
        ensures
            r.spec_layer1() == classes,
    {
        Self { layer1: classes }
    }
}

impl<T: Copy> crate::symbol_generator::SymbolEmitter<T> for Weighted2Stage<T> {
    open spec fn wf(&self) -> bool {
        self.well_formed()
    }

    open spec fn spec_emit(&self, st: AnsView) -> (Option<T>, Self, AnsView) {
        match spec_decode_from_weights(st, &self.spec_layer1()) {
            None => (None, *self, st),
            Some((i, st2)) => {
                let inner = self.spec_layer1().spec_symbols()[i];
                match spec_decode_uniform(st2, inner.spec_symbols().len() as u64) {
                    None => (None, *self, st2),
                    Some((j, st3)) => (Some(inner.spec_symbols()[j as int]), *self, st3),
                }
            },
        }
    }

    open spec fn can_emit(&self, s: T) -> bool {
        exists|i: int|
            0 <= i < self.spec_layer1().spec_symbols().len()
                && (#[trigger] self.spec_layer1().spec_symbols()[i]).spec_symbols().contains(s)
    }

    open spec fn req_count(&self) -> nat {
        0
    }

    open spec fn req_slots(&self) -> nat {
        0
    }

    open spec fn is_required_symbol(&self, s: T) -> bool {
        false
    }

    proof fn lemma_req_le_slots(&self) {
    }

    #[verifier::rlimit(50)]
    fn emit_symbol(&mut self, ans: &mut ANSDecode) -> (r: Option<T>) {
        let stage2 = match ans.decode_from_weights(&self.layer1) {
            None => {
                return None;
            },
            Some(s) => s,
        };
        proof {
            let (i, st2) = spec_decode_from_weights(old(ans)@, &old(self).spec_layer1())->Some_0;
            assert(*stage2 == old(self).spec_layer1().spec_symbols()[i]);
            assert(old(self).spec_layer1().spec_symbols()[i].spec_symbols().len() >= 1);
        }
        match ans.decode_uniform_from(stage2.symbols.as_slice()) {
            None => None,
            Some(sym) => {
                let s = *sym;
                proof {
                    let (i, st2) = spec_decode_from_weights(old(ans)@, &old(self).spec_layer1())
                        ->Some_0;
                    let inner = old(self).spec_layer1().spec_symbols()[i];
                    let (j, st3) = spec_decode_uniform(st2, inner.spec_symbols().len() as u64)
                        ->Some_0;
                    assert(inner.spec_symbols()[j as int] == s);
                    assert(inner.spec_symbols().contains(s));
                }
                Some(s)
            },
        }
    }
}

impl WeightedSymbols<SimpleClass> {
    /// The default class alphabet; same as `crate::site_rules::bob`.
    pub fn bob() -> (r: WeightedSymbols<SimpleClass>)
        ensures
            r.well_formed(),
            r.spec_symbols() =~= seq![
                SimpleClass::Upper,
                SimpleClass::Lower,
                SimpleClass::Digit,
                SimpleClass::Misc,
            ],
            r.spec_weights() =~= seq![5u32, 5u32, 1u32, 1u32],
            r.spec_weight_sum() == 12,
    {
        crate::site_rules::bob()
    }

    /// The default two-stage rule; same as `crate::site_rules::bob2`.
    pub fn bob2() -> (r: Weighted2Stage<char>)
        ensures
            r.well_formed(),
            r.spec_layer1().spec_weights() =~= seq![5u32, 5u32, 1u32, 1u32],
            r.spec_layer1().spec_weight_sum() == 12,
            r.spec_layer1().spec_symbols().len() == 4,
            r.spec_layer1().spec_symbols()[0].spec_symbols() == crate::spec_uppers(),
            r.spec_layer1().spec_symbols()[1].spec_symbols() == crate::spec_lowers(),
            r.spec_layer1().spec_symbols()[2].spec_symbols() == crate::spec_digits(),
            r.spec_layer1().spec_symbols()[3].spec_symbols() == crate::spec_misc_symbols(),
    {
        crate::site_rules::bob2()
    }
}

/// The four character classes of the password alphabet.
#[derive(Debug, Copy, Clone, PartialEq, Eq, Structural)]
pub enum SimpleClass {
    Upper,
    Lower,
    Digit,
    Misc,
}

/// The sum of any weight sequence is non-negative.
pub proof fn lemma_sum_weights_nonneg(ws: Seq<u32>)
    ensures
        sum_weights(ws) >= 0,
    decreases ws.len(),
{
    if ws.len() > 0 {
        lemma_sum_weights_nonneg(ws.drop_last());
    }
}

/// Splitting a weight sequence splits its sum.
pub proof fn lemma_sum_weights_split(ws: Seq<u32>, n: int)
    requires
        0 <= n <= ws.len(),
    ensures
        sum_weights(ws) == sum_weights(ws.take(n)) + sum_weights(ws.skip(n)),
    decreases ws.len() - n,
{
    if n == ws.len() {
        assert(ws.take(n) =~= ws);
        assert(ws.skip(n).len() == 0);
    } else {
        lemma_sum_weights_split(ws, n + 1);
        assert(ws.take(n + 1).drop_last() =~= ws.take(n));
        assert(ws.take(n + 1).last() == ws[n]);
        lemma_sum_weights_skip_step(ws, n);
    }
}

/// Dropping the first element of a suffix removes exactly that weight.
pub proof fn lemma_sum_weights_skip_step(ws: Seq<u32>, n: int)
    requires
        0 <= n < ws.len(),
    ensures
        sum_weights(ws.skip(n)) == ws[n] + sum_weights(ws.skip(n + 1)),
{
    let s = ws.skip(n);
    lemma_sum_weights_first_step(s);
    assert(s[0] == ws[n]);
    assert(s.drop_first() =~= ws.skip(n + 1));
}

/// Peeling the first weight off a non-empty sequence.
pub proof fn lemma_sum_weights_first_step(ws: Seq<u32>)
    requires
        ws.len() >= 1,
    ensures
        sum_weights(ws) == ws[0] + sum_weights(ws.drop_first()),
    decreases ws.len(),
{
    if ws.len() == 1 {
        assert(ws.drop_last().len() == 0);
        assert(sum_weights(ws.drop_last()) == 0);
        assert(ws.drop_first().len() == 0);
        assert(sum_weights(ws.drop_first()) == 0);
        assert(ws.last() == ws[0]);
    } else {
        lemma_sum_weights_first_step(ws.drop_last());
        assert(ws.drop_first().drop_last() =~= ws.drop_last().drop_first());
        assert(ws.drop_last()[0] == ws[0]);
        assert(ws.drop_first().len() >= 1);
        assert(ws.drop_first().last() == ws.last());
        assert(sum_weights(ws.drop_first()) == sum_weights(ws.drop_first().drop_last())
            + ws.drop_first().last());
        assert(sum_weights(ws) == sum_weights(ws.drop_last()) + ws.last());
        assert(sum_weights(ws.drop_last()) == ws[0] + sum_weights(ws.drop_last().drop_first()));
        assert(sum_weights(ws.drop_first().drop_last()) == sum_weights(
            ws.drop_last().drop_first(),
        ));
    }
}

} // verus!
