//! Named site rules: fixed weight tables over the four character
//! classes, assembled into emitter trees and driven for a fixed output
//! length.

use crate::asymmetric_numeral_system::{ConfigError, SimpleClass, Weighted2Stage, WeightedSymbols};
use crate::required_symbols::{ClassWeight, SymbolsWithRequirement};
use crate::symbol_generator::{SymbolEmitter, UniformSymbolSet};
use crate::{digits, lowers, misc_symbols, spec_digits, spec_lowers, spec_misc_symbols, spec_uppers, uppers};
use vstd::prelude::*;

verus! {

/// Takes a leaf that the fixed tables are known to build.
fn take_table(r: Result<UniformSymbolSet<char>, ConfigError>) -> (u: UniformSymbolSet<char>)
    requires
        r is Ok,
    ensures
        u == r->Ok_0,
{
    match r {
        Ok(u) => u,
        Err(_) => vstd::pervasive::unreached(),
    }
}

/// Takes an alphabet that the fixed weight tables are known to build.
fn take_alphabet(r: Result<WeightedSymbols<UniformSymbolSet<char>>, ConfigError>) -> (w:
    WeightedSymbols<UniformSymbolSet<char>>)
    requires
        r is Ok,
    ensures
        w == r->Ok_0,
{
    match r {
        Ok(w) => w,
        Err(_) => vstd::pervasive::unreached(),
    }
}

/// The default class alphabet: upper and lower case weighted 5 each,
/// digits and punctuation 1 each.
pub fn bob() -> (r: WeightedSymbols<SimpleClass>)
    ensures
        r.well_formed(),
        r.spec_symbols() =~= seq![
            SimpleClass::Upper,
            SimpleClass::Lower,
            SimpleClass::Digit,
            SimpleClass::Misc,
        ],
        r.spec_weights() =~= seq![5u32, 5u32, 1u32, 1u32],
        r.spec_weight_sum() == 12,
{
    let mut dict: Vec<ClassWeight<SimpleClass>> = Vec::new();
    dict.push(ClassWeight::new(SimpleClass::Upper, 5));
    dict.push(ClassWeight::new(SimpleClass::Lower, 5));
    dict.push(ClassWeight::new(SimpleClass::Digit, 1));
    dict.push(ClassWeight::new(SimpleClass::Misc, 1));
    proof {
        let ws = dict@.map_values(|cw: ClassWeight<SimpleClass>| cw.weight);
        assert(ws =~= seq![5u32, 5u32, 1u32, 1u32]);
        reveal_with_fuel(crate::asymmetric_numeral_system::sum_weights, 6);
        assert(ws.drop_last() =~= seq![5u32, 5u32, 1u32]);
        assert(ws.drop_last().drop_last() =~= seq![5u32, 5u32]);
        assert(ws.drop_last().drop_last().drop_last() =~= seq![5u32]);
        assert(ws.drop_last().drop_last().drop_last().drop_last() =~= Seq::<u32>::empty());
        assert(crate::asymmetric_numeral_system::sum_weights(ws) == 12);
    }
    match WeightedSymbols::new(dict) {
        Ok(w) => w,
        Err(_) => vstd::pervasive::unreached(),
    }
}

/// The default two-stage rule: the `bob` class weights, each class
/// emitting uniformly from its own character table.
pub fn bob2() -> (r: Weighted2Stage<char>)
    ensures
        r.well_formed(),
        r.spec_layer1().spec_weights() =~= seq![5u32, 5u32, 1u32, 1u32],
        r.spec_layer1().spec_weight_sum() == 12,
        r.spec_layer1().spec_symbols().len() == 4,
        r.spec_layer1().spec_symbols()[0].spec_symbols() == spec_uppers(),
        r.spec_layer1().spec_symbols()[1].spec_symbols() == spec_lowers(),
        r.spec_layer1().spec_symbols()[2].spec_symbols() == spec_digits(),
        r.spec_layer1().spec_symbols()[3].spec_symbols() == spec_misc_symbols(),
{
    let fn_u = take_table(UniformSymbolSet::new(uppers()));
    let fn_l = take_table(UniformSymbolSet::new(lowers()));
    let fn_d = take_table(UniformSymbolSet::new(digits()));
    let fn_m = take_table(UniformSymbolSet::new(misc_symbols()));
    let mut dict: Vec<ClassWeight<UniformSymbolSet<char>>> = Vec::new();
    dict.push(ClassWeight::new(fn_u, 5));
    dict.push(ClassWeight::new(fn_l, 5));
    dict.push(ClassWeight::new(fn_d, 1));
    dict.push(ClassWeight::new(fn_m, 1));
    proof {
        let ws = dict@.map_values(|cw: ClassWeight<UniformSymbolSet<char>>| cw.weight);
        assert(ws =~= seq![5u32, 5u32, 1u32, 1u32]);
        reveal_with_fuel(crate::asymmetric_numeral_system::sum_weights, 6);
        assert(ws.drop_last() =~= seq![5u32, 5u32, 1u32]);
        assert(ws.drop_last().drop_last() =~= seq![5u32, 5u32]);
        assert(ws.drop_last().drop_last().drop_last() =~= seq![5u32]);
        assert(ws.drop_last().drop_last().drop_last().drop_last() =~= Seq::<u32>::empty());
        assert(crate::asymmetric_numeral_system::sum_weights(ws) == 12);
    }
    let syms = take_alphabet(WeightedSymbols::new(dict));
    Weighted2Stage::new(syms)
}

/// The requirement-bearing rule: upper, lower and punctuation weighted
/// 5:5:1, with at least one digit guaranteed among the first
/// `symbol_count` emissions.
pub fn ericsson(symbol_count: u32) -> (r: SymbolsWithRequirement<
    UniformSymbolSet<char>,
    Weighted2Stage<char>,
>)
    requires
        symbol_count >= 1,
    ensures
        r.wf(),
        r.req_count() == 1,
        r.req_slots() == symbol_count,
        forall|c: char| r.is_required_symbol(c) == spec_digits().contains(c),
        r.adjustmotron.spec_required() == 1,
        r.adjustmotron.spec_optional() == 11,
        r.required_count == 1,
        r.remaining_symbols == symbol_count,
        r.fn_a.spec_symbols() == spec_digits(),
        r.fn_b.spec_layer1().spec_weights() =~= seq![5u32, 5u32, 1u32],
        r.fn_b.spec_layer1().spec_weight_sum() == 11,
        r.fn_b.spec_layer1().spec_symbols().len() == 3,
        r.fn_b.spec_layer1().spec_symbols()[0].spec_symbols() == spec_uppers(),
        r.fn_b.spec_layer1().spec_symbols()[1].spec_symbols() == spec_lowers(),
        r.fn_b.spec_layer1().spec_symbols()[2].spec_symbols() == spec_misc_symbols(),
{
    let fn_u = take_table(UniformSymbolSet::new(uppers()));
    let fn_l = take_table(UniformSymbolSet::new(lowers()));
    let fn_d = take_table(UniformSymbolSet::new(digits()));
    let fn_m = take_table(UniformSymbolSet::new(misc_symbols()));
    let mut dict: Vec<ClassWeight<UniformSymbolSet<char>>> = Vec::new();
    dict.push(ClassWeight::new(fn_u, 5));
    dict.push(ClassWeight::new(fn_l, 5));
    dict.push(ClassWeight::new(fn_m, 1));
    proof {
        let ws = dict@.map_values(|cw: ClassWeight<UniformSymbolSet<char>>| cw.weight);
        assert(ws =~= seq![5u32, 5u32, 1u32]);
        reveal_with_fuel(crate::asymmetric_numeral_system::sum_weights, 5);
        assert(ws.drop_last() =~= seq![5u32, 5u32]);
        assert(ws.drop_last().drop_last() =~= seq![5u32]);
        assert(ws.drop_last().drop_last().drop_last() =~= Seq::<u32>::empty());
        assert(crate::asymmetric_numeral_system::sum_weights(ws) == 11);
    }
    let syms = take_alphabet(WeightedSymbols::new(dict));
    let etc = Weighted2Stage::new(syms);
    SymbolsWithRequirement::new(1, 5 + 5 + 1, 1, symbol_count, fn_d, etc)
}

} // verus!
