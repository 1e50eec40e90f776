//! Constrained sampling: the requirement engine that computes exact
//! two-branch weights guaranteeing a minimum number of occurrences of a
//! required symbol class within a bounded number of remaining slots.

use crate::asymmetric_numeral_system::{spec_decode_binary, ANSDecode, AnsView};
use crate::symbol_generator::SymbolEmitter;
use vstd::prelude::*;

verus! {

/// One entry of a weighted alphabet: a symbol class and its positive
/// relative weight.
pub struct ClassWeight<T> {
    pub class: T,
    pub weight: u32,
}

impl<T> ClassWeight<T> {
    pub fn new(class: T, weight: u32) -> (r: Self)
        ensures
            r.class == class,
            r.weight == weight,
    {
        Self { class, weight }
    }
}

/// `base^exp` over the naturals.
pub open spec fn spec_pow(base: nat, exp: nat) -> nat
    decreases exp,
{
    if exp == 0 {
        1
    } else {
        base * spec_pow(base, (exp - 1) as nat)
    }
}

/// A positive base keeps every power positive.
pub proof fn lemma_pow_pos(base: nat, exp: nat)
    requires
        base >= 1,
    ensures
        spec_pow(base, exp) >= 1,
    decreases exp,
{
    if exp > 0 {
        lemma_pow_pos(base, (exp - 1) as nat);
        assert(base * spec_pow(base, (exp - 1) as nat) >= 1) by (nonlinear_arith)
            requires
                base >= 1,
                spec_pow(base, (exp - 1) as nat) >= 1,
        ;
    }
}

/// Powers of a positive base grow with the exponent.
pub proof fn lemma_pow_mono(base: nat, e1: nat, e2: nat)
    requires
        base >= 1,
        e1 <= e2,
    ensures
        spec_pow(base, e1) <= spec_pow(base, e2),
    decreases e2,
{
    if e1 < e2 {
        lemma_pow_mono(base, e1, (e2 - 1) as nat);
        assert(spec_pow(base, (e2 - 1) as nat) <= base * spec_pow(base, (e2 - 1) as nat))
            by (nonlinear_arith)
            requires
                base >= 1,
        ;
    }
}

/// One less, floored at zero: the scaling exponent for `n` slots.
pub open spec fn sub_or_zero(n: nat) -> nat {
    if n == 0 {
        0
    } else {
        (n - 1) as nat
    }
}

/// The unconstrained branch weights: the raw `r : o` ratio, both scaled
/// by `(r+o)^(n-1)` so that repeated recursive combination of slot
/// weights stays consistent.
pub open spec fn spec_unrestricted(r: nat, o: nat, n: nat) -> (nat, nat) {
    let p = spec_pow((r + o) as nat, sub_or_zero(n));
    (r * p, o * p)
}

/// The exact pair of branch weights for the current slot so that, under
/// unconstrained weighting `r : o`, at least `k` required symbols
/// appear in the next `n` slots: with nothing owed the unconstrained
/// ratio, with no slack every slot forced to the required branch, and
/// otherwise each branch weighted by the mass of the continuations it
/// leaves possible.
pub open spec fn spec_weights_general(r: nat, o: nat, k: nat, n: nat) -> (nat, nat)
    decreases n,
{
    if k == 0 {
        spec_unrestricted(r, o, n)
    } else if n <= k {
        (spec_pow(r, n), 0)
    } else {
        let (ra, oa) = spec_weights_general(r, o, (k - 1) as nat, (n - 1) as nat);
        let (rb, ob) = spec_weights_general(r, o, k, (n - 1) as nat);
        (r * (ra + oa), o * (rb + ob))
    }
}

/// Computes the probability weights of a slot when the symbols divide
/// into a *required* and an *optional* category and some number of
/// required symbols must still appear: the minimum-count constraint
/// distorts the per-slot weights, and this engine computes the exact
/// distorted pair.
pub struct Adjustmotron {
    required_prev: u64,
    optional_prev: u64,
}

impl Adjustmotron {
    /// The raw weight of the required category.
    pub closed spec fn spec_required(&self) -> u64 {
        self.required_prev
    }

    /// The raw weight of the optional categories together.
    pub closed spec fn spec_optional(&self) -> u64 {
        self.optional_prev
    }

    pub open spec fn well_formed(&self) -> bool {
        self.spec_required() >= 1 && self.spec_optional() >= 1
    }

    /// `required_prev` / `optional_prev`: the raw positive weights of
    /// the required and the optional symbols.
    pub fn new(required_prev: u64, optional_prev: u64) -> (r: Self)
        requires
            required_prev >= 1,
            optional_prev >= 1,
        ensures
            r.spec_required() == required_prev,
            r.spec_optional() == optional_prev,
    {
        Self { required_prev, optional_prev }
    }

    /// `x^n`, or `None` when the value does not fit 64 bits.
    fn pow1(x: u64, n: u32) -> (r: Option<u64>)
        requires
            x >= 1,
        ensures
            match r {
                Some(p) => p == spec_pow(x as nat, n as nat),
                None => spec_pow(x as nat, n as nat) > u64::MAX,
            },
    {
        let mut result: u64 = 1;
        let mut i: u32 = 0;
        while i < n
            invariant
                x >= 1,
                i <= n,
                result == spec_pow(x as nat, i as nat),
            decreases n - i,
        {
            proof {
                vstd::arithmetic::mul::lemma_mul_upper_bound(
                    result as int,
                    u64::MAX as int,
                    x as int,
                    u64::MAX as int,
                );
            }
            let prod: u128 = (result as u128) * (x as u128);
            if prod > (u64::MAX as u128) {
                proof {
                    assert(spec_pow(x as nat, (i + 1) as nat) == x as nat * spec_pow(
                        x as nat,
                        i as nat,
                    ));
                    vstd::arithmetic::mul::lemma_mul_is_commutative(x as int, result as int);
                    lemma_pow_mono(x as nat, (i + 1) as nat, n as nat);
                }
                return None;
            }
            result = prod as u64;
            i = i + 1;
            proof {
                vstd::arithmetic::mul::lemma_mul_is_commutative(x as int, result as int);
                assert(spec_pow(x as nat, i as nat) == x as nat * spec_pow(
                    x as nat,
                    (i - 1) as nat,
                ));
            }
        }
        Some(result)
    }

    /// The pair of weights for a slot with no constraint left, scaled
    /// as `spec_unrestricted` says; `None` when a weight exceeds 64
    /// bits.
    pub fn unrestricted_weight(&self, remaining_symbols: u32) -> (r: Option<(u64, u64)>)
        requires
            self.well_formed(),
        ensures
            ({
                let (sa, sb) = spec_unrestricted(
                    self.spec_required() as nat,
                    self.spec_optional() as nat,
                    remaining_symbols as nat,
                );
                match r {
                    Some((a, b)) => a == sa && b == sb,
                    None => sa > u64::MAX || sb > u64::MAX,
                }
            }),
    {
        let rw = self.required_prev;
        let ow = self.optional_prev;
        if remaining_symbols <= 1 {
            proof {
                assert(spec_pow((rw + ow) as nat, 0) == 1);
                vstd::arithmetic::mul::lemma_mul_basics(rw as int);
                vstd::arithmetic::mul::lemma_mul_basics(ow as int);
            }
            return Some((rw, ow));
        }
        let ghost s_nat: nat = (rw + ow) as nat;
        let ghost e: nat = (remaining_symbols - 1) as nat;
        if rw > u64::MAX - ow {
            proof {
                lemma_pow_mono(s_nat, 1, e);
                assert(spec_pow(s_nat, 1) == s_nat * spec_pow(s_nat, 0));
                assert(spec_pow(s_nat, 0) == 1);
                vstd::arithmetic::mul::lemma_mul_basics(s_nat as int);
                assert(spec_pow(s_nat, 1) == s_nat);
                assert(rw as nat * spec_pow(s_nat, e) >= spec_pow(s_nat, e)) by (nonlinear_arith)
                    requires
                        rw >= 1,
                ;
            }
            return None;
        }
        let s = rw + ow;
        match Self::pow1(s, remaining_symbols - 1) {
            None => {
                proof {
                    assert(rw as nat * spec_pow(s_nat, e) >= spec_pow(s_nat, e))
                        by (nonlinear_arith)
                        requires
                            rw >= 1,
                    ;
                }
                None
            },
            Some(p) => {
                proof {
                    vstd::arithmetic::mul::lemma_mul_upper_bound(
                        rw as int,
                        u64::MAX as int,
                        p as int,
                        u64::MAX as int,
                    );
                    vstd::arithmetic::mul::lemma_mul_upper_bound(
                        ow as int,
                        u64::MAX as int,
                        p as int,
                        u64::MAX as int,
                    );
                }
                let a128 = (rw as u128) * (p as u128);
                if a128 > u64::MAX as u128 {
                    return None;
                }
                let b128 = (ow as u128) * (p as u128);
                if b128 > u64::MAX as u128 {
                    return None;
                }
                Some((a128 as u64, b128 as u64))
            },
        }
    }

    /// The weights for the current slot given that at least
    /// `required_count` required symbols must appear in the next
    /// `remaining_count` slots; `None` when a weight exceeds 64 bits.
    /// Derived fresh on every call, exactly as `spec_weights_general`
    /// defines the pair.
    pub fn weights_general(&self, required_count: u32, remaining_count: u32) -> (r: Option<
        (u64, u64),
    >)
        requires
            self.well_formed(),
        ensures
            ({
                let (sa, sb) = spec_weights_general(
                    self.spec_required() as nat,
                    self.spec_optional() as nat,
                    required_count as nat,
                    remaining_count as nat,
                );
                match r {
                    Some((a, b)) => a == sa && b == sb,
                    None => sa > u64::MAX || sb > u64::MAX,
                }
            }),
        decreases remaining_count,
    {
        let rw = self.required_prev;
        let ow = self.optional_prev;
        if required_count == 0 {
            self.unrestricted_weight(remaining_count)
        } else if remaining_count <= required_count {
            match Self::pow1(rw, remaining_count) {
                None => None,
                Some(p) => Some((p, 0)),
            }
        } else {
            let fewer = remaining_count - 1;
            let ghost r_nat: nat = rw as nat;
            let ghost o_nat: nat = ow as nat;
            let ghost first_spec = spec_weights_general(
                r_nat,
                o_nat,
                (required_count - 1) as nat,
                fewer as nat,
            );
            let ghost second_spec = spec_weights_general(
                r_nat,
                o_nat,
                required_count as nat,
                fewer as nat,
            );
            match self.weights_general(required_count - 1, fewer) {
                None => {
                    proof {
                        assert(rw as nat * (first_spec.0 + first_spec.1) >= first_spec.0
                            + first_spec.1) by (nonlinear_arith)
                            requires
                                rw >= 1,
                        ;
                    }
                    None
                },
                Some((ra, oa)) => {
                    let wa128 = (ra as u128) + (oa as u128);
                    if wa128 > u64::MAX as u128 {
                        proof {
                            assert(rw as nat * (first_spec.0 + first_spec.1) >= first_spec.0
                                + first_spec.1) by (nonlinear_arith)
                                requires
                                    rw >= 1,
                            ;
                        }
                        return None;
                    }
                    let wa = wa128 as u64;
                    match self.weights_general(required_count, fewer) {
                        None => {
                            proof {
                                assert(ow as nat * (second_spec.0 + second_spec.1) >= second_spec.0
                                    + second_spec.1) by (nonlinear_arith)
                                    requires
                                        ow >= 1,
                                ;
                            }
                            None
                        },
                        Some((rb, ob)) => {
                            let wb128 = (rb as u128) + (ob as u128);
                            if wb128 > u64::MAX as u128 {
                                proof {
                                    assert(ow as nat * (second_spec.0 + second_spec.1)
                                        >= second_spec.0 + second_spec.1) by (nonlinear_arith)
                                        requires
                                            ow >= 1,
                                    ;
                                }
                                return None;
                            }
                            let wb = wb128 as u64;
                            proof {
                                vstd::arithmetic::mul::lemma_mul_upper_bound(
                                    rw as int,
                                    u64::MAX as int,
                                    wa as int,
                                    u64::MAX as int,
                                );
                                vstd::arithmetic::mul::lemma_mul_upper_bound(
                                    ow as int,
                                    u64::MAX as int,
                                    wb as int,
                                    u64::MAX as int,
                                );
                            }
                            let a128 = (rw as u128) * (wa as u128);
                            if a128 > u64::MAX as u128 {
                                return None;
                            }
                            let b128 = (ow as u128) * (wb as u128);
                            if b128 > u64::MAX as u128 {
                                return None;
                            }
                            Some((a128 as u64, b128 as u64))
                        },
                    }
                },
            }
        }
    }
}

/// The fixed quantization cap handed to every binary decode of the
/// constrained emitter, bounding precision loss.
pub const MAX_QUANTIZATION: u64 = 0x1_0000_0000;

/// The required-branch weight is always positive.
pub proof fn lemma_weights_general_pos(r: nat, o: nat, k: nat, n: nat)
    requires
        r >= 1,
        o >= 1,
    ensures
        spec_weights_general(r, o, k, n).0 >= 1,
    decreases n,
{
    if k == 0 {
        lemma_pow_pos((r + o) as nat, sub_or_zero(n));
        assert(r * spec_pow((r + o) as nat, sub_or_zero(n)) >= 1) by (nonlinear_arith)
            requires
                r >= 1,
                spec_pow((r + o) as nat, sub_or_zero(n)) >= 1,
        ;
    } else if n <= k {
        lemma_pow_pos(r, n);
    } else {
        lemma_weights_general_pos(r, o, (k - 1) as nat, (n - 1) as nat);
        let (ra, oa) = spec_weights_general(r, o, (k - 1) as nat, (n - 1) as nat);
        assert(r * (ra + oa) >= 1) by (nonlinear_arith)
            requires
                r >= 1,
                ra >= 1,
        ;
    }
}

/// A constrained emitter: drives the requirement engine across
/// repeated emissions, dispatching each slot to the required emitter
/// `fn_a` or the fallback emitter `fn_b` according to an exact binary
/// decode, so that `required_count` symbols of the required class are
/// guaranteed within the next `remaining_symbols` emissions.
pub struct SymbolsWithRequirement<A, B> {
    pub adjustmotron: Adjustmotron,
    pub required_count: u32,
    pub remaining_symbols: u32,
    pub fn_a: A,
    pub fn_b: B,
}

impl<A, B> SymbolsWithRequirement<A, B> {
    /// `required_prev` / `optional_prev`: the raw positive weights of
    /// the required class and of everything else; at least
    /// `required_count` required symbols are owed within the next
    /// `remaining_symbols` emissions; `fn_a` emits the required class,
    /// `fn_b` everything else.
    pub fn new(
        required_prev: u64,
        optional_prev: u64,
        required_count: u32,
        remaining_symbols: u32,
        fn_a: A,
        fn_b: B,
    ) -> (r: Self)
        requires
            required_prev >= 1,
            optional_prev >= 1,
            required_count <= remaining_symbols,
        ensures
            r.adjustmotron.spec_required() == required_prev,
            r.adjustmotron.spec_optional() == optional_prev,
            r.required_count == required_count,
            r.remaining_symbols == remaining_symbols,
            r.fn_a == fn_a,
            r.fn_b == fn_b,
    {
        Self {
            adjustmotron: Adjustmotron::new(required_prev, optional_prev),
            required_count,
            remaining_symbols,
            fn_a,
            fn_b,
        }
    }
}

impl<S, A: SymbolEmitter<S>, B: SymbolEmitter<S>> SymbolEmitter<S> for SymbolsWithRequirement<
    A,
    B,
> {
    open spec fn wf(&self) -> bool {
        &&& self.adjustmotron.well_formed()
        &&& self.required_count <= self.remaining_symbols
        &&& self.fn_a.wf()
        &&& self.fn_b.wf()
    }

    open spec fn spec_emit(&self, st: AnsView) -> (Option<S>, Self, AnsView) {
        let (sa, sb) = spec_weights_general(
            self.adjustmotron.spec_required() as nat,
            self.adjustmotron.spec_optional() as nat,
            self.required_count as nat,
            self.remaining_symbols as nat,
        );
        if sa > u64::MAX || sb > u64::MAX {
            (None, *self, st)
        } else {
            match spec_decode_binary(st, sa as u64, sb as u64, MAX_QUANTIZATION) {
                None => (None, *self, st),
                Some((use_b, st2)) => {
                    let slots2: u32 = if self.remaining_symbols == 0 {
                        0
                    } else {
                        (self.remaining_symbols - 1) as u32
                    };
                    if use_b {
                        let (sym_opt, b2, st3) = self.fn_b.spec_emit(st2);
                        (
                            sym_opt,
                            Self {
                                adjustmotron: self.adjustmotron,
                                required_count: self.required_count,
                                remaining_symbols: slots2,
                                fn_a: self.fn_a,
                                fn_b: b2,
                            },
                            st3,
                        )
                    } else {
                        let count2: u32 = if self.required_count == 0 {
                            0
                        } else {
                            (self.required_count - 1) as u32
                        };
                        let (sym_opt, a2, st3) = self.fn_a.spec_emit(st2);
                        (
                            sym_opt,
                            Self {
                                adjustmotron: self.adjustmotron,
                                required_count: count2,
                                remaining_symbols: slots2,
                                fn_a: a2,
                                fn_b: self.fn_b,
                            },
                            st3,
                        )
                    }
                },
            }
        }
    }

    open spec fn can_emit(&self, s: S) -> bool {
        self.fn_a.can_emit(s) || self.fn_b.can_emit(s)
    }

    open spec fn req_count(&self) -> nat {
        self.required_count as nat
    }

    open spec fn req_slots(&self) -> nat {
        self.remaining_symbols as nat
    }

    open spec fn is_required_symbol(&self, s: S) -> bool {
        self.fn_a.can_emit(s)
    }

    proof fn lemma_req_le_slots(&self) {
    }

    fn emit_symbol(&mut self, ans: &mut ANSDecode) -> (r: Option<S>) {
        let ghost r_nat = self.adjustmotron.spec_required() as nat;
        let ghost o_nat = self.adjustmotron.spec_optional() as nat;
        let ghost k_nat = self.required_count as nat;
        let ghost n_nat = self.remaining_symbols as nat;
        let (wa, wb) = match self.adjustmotron.weights_general(
            self.required_count,
            self.remaining_symbols,
        ) {
            None => {
                return None;
            },
            Some(p) => p,
        };
        proof {
            lemma_weights_general_pos(r_nat, o_nat, k_nat, n_nat);
        }
        let use_b = match ans.decode_binary(wa, wb, MAX_QUANTIZATION) {
            None => {
                return None;
            },
            Some(v) => v,
        };
        if self.remaining_symbols >= 1 {
            self.remaining_symbols = self.remaining_symbols - 1;
        }
        if use_b {
            proof {
                assert(self.required_count > 0 && old(self).remaining_symbols
                    <= old(self).required_count ==> false) by {
                    if self.required_count > 0 && old(self).remaining_symbols <= old(
                        self,
                    ).required_count {
                        assert(spec_weights_general(r_nat, o_nat, k_nat, n_nat).1 == 0);
                    }
                };
            }
            self.fn_b.emit_symbol(ans)
        } else {
            if self.required_count >= 1 {
                self.required_count = self.required_count - 1;
            }
            self.fn_a.emit_symbol(ans)
        }
    }
}

} // verus!
