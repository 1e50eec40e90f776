//! The shared symbol-emission capability: anything that can produce one
//! symbol from the decoder, together with the laws every emitter obeys
//! (a functional model of each emission, and the bookkeeping of a
//! minimum-count requirement), and the trivial uniform-pick leaf.

use crate::asymmetric_numeral_system::{
    spec_decode_uniform, ANSDecode, AnsView, ConfigError,
};
use vstd::prelude::*;

verus! {

/// One step of symbol emission against the ANS decoder.
///
/// Every emitter kind carries a functional model `spec_emit` of its
/// emission step, so a whole derivation is a function of the digest and
/// the rule alone, and bookkeeping for an optional minimum-count
/// requirement: `req_count` symbols of the required class are still
/// owed within the next `req_slots` emissions.  Emitters without a
/// requirement report both as zero.
pub trait SymbolEmitter<S>: Sized {
    /// Structural well-formedness, established at construction and
    /// preserved by emission.
    spec fn wf(&self) -> bool;

    /// The functional model of one emission from decoder state `st`:
    /// the symbol produced (`None` when the emission cannot produce an
    /// unbiased symbol — entropy exhaustion), the emitter afterwards,
    /// and the decoder state afterwards.
    spec fn spec_emit(&self, st: AnsView) -> (Option<S>, Self, AnsView);

    /// The symbols this emitter can ever produce.
    spec fn can_emit(&self, s: S) -> bool;

    /// How many required-class symbols are still owed.
    spec fn req_count(&self) -> nat;

    /// How many emissions remain in the requirement horizon.
    spec fn req_slots(&self) -> nat;

    /// Whether a symbol belongs to the required class.
    spec fn is_required_symbol(&self, s: S) -> bool;

    /// No more symbols are owed than there are slots left to emit them.
    proof fn lemma_req_le_slots(&self)
        requires
            self.wf(),
        ensures
            self.req_count() <= self.req_slots(),
    ;

    /// Produces one symbol, or reports exhaustion.  The result and the
    /// final states follow `spec_emit`; the requirement bookkeeping
    /// obeys: the horizon shrinks by one, the owed count never grows
    /// and drops by at most one, it drops exactly when a symbol of the
    /// required class was emitted for it, and while symbols are owed
    /// the count may stay only if there is slack in the horizon.
    fn emit_symbol(&mut self, ans: &mut ANSDecode) -> (r: Option<S>)
        requires
            old(self).wf(),
            old(ans).wf(),
        ensures
            final(self).wf(),
            final(ans).wf(),
            r == old(self).spec_emit(old(ans)@).0,
            *final(self) == old(self).spec_emit(old(ans)@).1,
            final(ans)@ == old(self).spec_emit(old(ans)@).2,
            match r {
                Some(sym) => old(self).can_emit(sym),
                None => true,
            },
            r is Some ==> final(self).req_slots() == if old(self).req_slots() == 0 {
                0nat
            } else {
                (old(self).req_slots() - 1) as nat
            },
            r is Some ==> final(self).req_count() <= old(self).req_count(),
            r is Some ==> old(self).req_count() <= final(self).req_count() + 1,
            (r is Some && old(self).req_count() > 0 && final(self).req_count() == old(
                self,
            ).req_count()) ==> old(self).req_count() < old(self).req_slots(),
            match r {
                Some(sym) => final(self).req_count() < old(self).req_count() ==> old(
                    self,
                ).is_required_symbol(sym),
                None => true,
            },
            forall|s: S|
                #![trigger final(self).can_emit(s)]
                #![trigger old(self).can_emit(s)]
                final(self).can_emit(s) == old(self).can_emit(s),
            forall|s: S|
                #![trigger final(self).is_required_symbol(s)]
                #![trigger old(self).is_required_symbol(s)]
                final(self).is_required_symbol(s) == old(self).is_required_symbol(s),
    ;
}

/// The functional model of driving an emitter for up to `n` symbols:
/// the symbols produced, the emitter afterwards and the decoder state
/// afterwards.  The run stops short as soon as one emission cannot
/// produce an unbiased symbol, so the sequence is truncated rather
/// than padded with degraded symbols.
pub open spec fn spec_emit_seq<S, SE: SymbolEmitter<S>>(e: SE, st: AnsView, n: nat) -> (
    Seq<S>,
    SE,
    AnsView,
)
    decreases n,
{
    if n == 0 {
        (Seq::empty(), e, st)
    } else {
        let (sym_opt, e2, st2) = e.spec_emit(st);
        match sym_opt {
            None => (Seq::empty(), e2, st2),
            Some(sym) => {
                let (rest, e3, st3) = spec_emit_seq(e2, st2, (n - 1) as nat);
                (seq![sym] + rest, e3, st3)
            },
        }
    }
}

/// How many symbols of `s` belong to `e`'s required class.
pub open spec fn count_required<S, SE: SymbolEmitter<S>>(e: SE, s: Seq<S>) -> nat
    decreases s.len(),
{
    if s.len() == 0 {
        0
    } else {
        count_required(e, s.drop_last()) + (if e.is_required_symbol(s.last()) {
            1nat
        } else {
            0nat
        })
    }
}

/// Drives `emitter` up to `count` times against `ans`, collecting the
/// symbols.  The run stops at the first exhausted emission, so the
/// result may be shorter than `count` but never holds a degraded
/// symbol.  The output follows `spec_emit_seq`, and whenever it covers
/// the emitter's requirement horizon, the horizon's prefix holds at
/// least the owed number of required symbols.
pub fn emit_symbols<S, SE: SymbolEmitter<S>>(emitter: &mut SE, ans: &mut ANSDecode, count: usize) -> (r:
    Vec<S>)
    requires
        old(emitter).wf(),
        old(ans).wf(),
    ensures
        final(emitter).wf(),
        final(ans).wf(),
        ({
            let (syms, e3, st3) = spec_emit_seq(*old(emitter), old(ans)@, count as nat);
            r@ == syms && *final(emitter) == e3 && final(ans)@ == st3
        }),
        r@.len() <= count,
        old(emitter).req_slots() <= r@.len() ==> count_required(
            *old(emitter),
            r@.take(old(emitter).req_slots() as int),
        ) >= old(emitter).req_count(),
{
    let ghost slots0 = old(emitter).req_slots();
    let ghost k0 = old(emitter).req_count();
    let mut syms: Vec<S> = Vec::new();
    let mut i: usize = 0;
    while i < count
        invariant
            i <= count,
            emitter.wf(),
            ans.wf(),
            syms@.len() == i,
            slots0 == old(emitter).req_slots(),
            k0 == old(emitter).req_count(),
            ({
                let (rest, e3, st3) = spec_emit_seq(*emitter, ans@, (count - i) as nat);
                spec_emit_seq(*old(emitter), old(ans)@, count as nat) == (syms@ + rest, e3, st3)
            }),
            emitter.req_slots() == if i <= slots0 {
                (slots0 - i) as nat
            } else {
                0nat
            },
            count_required(
                *old(emitter),
                syms@.take(
                    if i <= slots0 {
                        i as int
                    } else {
                        slots0 as int
                    },
                ),
            ) + emitter.req_count() >= k0,
            forall|s: S| #[trigger]
                emitter.is_required_symbol(s) == old(emitter).is_required_symbol(s),
        decreases count - i,
    {
        let ghost e_before = *emitter;
        let ghost st_before = ans@;
        let ghost m = (count - i) as nat;
        proof {
            e_before.lemma_req_le_slots();
        }
        match emitter.emit_symbol(ans) {
            None => {
                proof {
                    assert(spec_emit_seq(e_before, st_before, m) == (
                    Seq::<S>::empty(),
                    *emitter,
                    ans@,
                    ));
                    assert(syms@ + Seq::<S>::empty() =~= syms@);
                    if slots0 <= i as nat {
                        assert(e_before.req_slots() == 0);
                        assert(e_before.req_count() == 0);
                    }
                }
                return syms;
            },
            Some(sym) => {
                proof {
                    let (sym0, e2, st2) = e_before.spec_emit(st_before);
                    assert(sym0 == Some(sym) && e2 == *emitter && st2 == ans@);
                    // the whole-run model stays aligned after this step
                    let (rest, e3, st3) = spec_emit_seq(*emitter, ans@, (count - (i + 1)) as nat);
                    assert(spec_emit_seq(e_before, st_before, m) == (
                    seq![sym] + rest,
                    e3,
                    st3,
                    ));
                    assert(syms@ + (seq![sym] + rest) =~= syms@.push(sym) + rest);
                    // the required-symbol count stays aligned
                    let taken = if i <= slots0 {
                        i as int
                    } else {
                        slots0 as int
                    };
                    let taken2 = if i + 1 <= slots0 {
                        (i + 1) as int
                    } else {
                        slots0 as int
                    };
                    if (i as nat) < slots0 {
                        assert(syms@.push(sym).take(taken2) =~= syms@.push(sym));
                        assert(syms@.push(sym).drop_last() =~= syms@.take(taken));
                        assert(count_required(*old(emitter), syms@.push(sym))
                            == count_required(*old(emitter), syms@.take(taken)) + (
                        if old(emitter).is_required_symbol(sym) {
                            1nat
                        } else {
                            0nat
                        }));
                        if emitter.req_count() < e_before.req_count() {
                            assert(e_before.is_required_symbol(sym));
                            assert(old(emitter).is_required_symbol(sym));
                        }
                    } else {
                        assert(e_before.req_slots() == 0);
                        assert(e_before.req_count() == 0);
                        assert(emitter.req_count() == 0);
                        assert(syms@.push(sym).take(taken2) =~= syms@.take(taken));
                    }
                }
                syms.push(sym);
                i = i + 1;
            },
        }
    }
    proof {
        assert(spec_emit_seq(*emitter, ans@, 0) == (Seq::<S>::empty(), *emitter, ans@));
        assert(syms@ + Seq::<S>::empty() =~= syms@);
        if slots0 <= count as nat {
            emitter.lemma_req_le_slots();
            assert(emitter.req_slots() == 0);
            assert(emitter.req_count() == 0);
        }
    }
    syms
}

/// A uniform-pick leaf: every symbol of a fixed non-empty set with
/// equal probability.
pub struct UniformSymbolSet<S> {
    pub symbols: Vec<S>,
}

impl<S> UniformSymbolSet<S> {
    pub open spec fn spec_symbols(&self) -> Seq<S> {
        self.symbols@
    }

    /// Builds the leaf; an empty symbol set is a configuration error.
    pub fn new(symbols: Vec<S>) -> (r: Result<Self, ConfigError>)
        ensures
            match r {
                Ok(u) => symbols@.len() >= 1 && u.spec_symbols() == symbols@,
                Err(e) => symbols@.len() == 0 && e == ConfigError::EmptyAlphabet,
            },
    {
        if symbols.len() == 0 {
            Err(ConfigError::EmptyAlphabet)
        } else {
            Ok(Self { symbols })
        }
    }
}

impl<S: Copy> SymbolEmitter<S> for UniformSymbolSet<S> {
    open spec fn wf(&self) -> bool {
        self.spec_symbols().len() >= 1
    }

    open spec fn spec_emit(&self, st: AnsView) -> (Option<S>, Self, AnsView) {
        match spec_decode_uniform(st, self.spec_symbols().len() as u64) {
            None => (None, *self, st),
            Some((i, st2)) => (Some(self.spec_symbols()[i as int]), *self, st2),
        }
    }

    open spec fn can_emit(&self, s: S) -> bool {
        self.spec_symbols().contains(s)
    }

    open spec fn req_count(&self) -> nat {
        0
    }

    open spec fn req_slots(&self) -> nat {
        0
    }

    open spec fn is_required_symbol(&self, s: S) -> bool {
        false
    }

    proof fn lemma_req_le_slots(&self) {
    }

    fn emit_symbol(&mut self, ans: &mut ANSDecode) -> (r: Option<S>) {
        match ans.decode_uniform_from(self.symbols.as_slice()) {
            None => None,
            Some(sym) => {
                let s = *sym;
                proof {
                    let m = self.spec_symbols().len() as u64;
                    let (i, st2) = spec_decode_uniform(old(ans)@, m)->Some_0;
                    assert(self.spec_symbols()[i as int] == s);
                    assert(self.spec_symbols().contains(s));
                }
                Some(s)
            },
        }
    }
}

} // verus!
