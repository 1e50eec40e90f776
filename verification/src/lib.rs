//! Deterministic expansion of a fixed-length byte digest into a
//! human-typable character sequence, via an asymmetric-numeral-system
//! (ANS) decoder over weighted, class-partitioned alphabets.

pub mod asymmetric_numeral_system;
pub mod required_symbols;
pub mod site_rules;
pub mod symbol_generator;

use vstd::prelude::*;
use vstd::string::*;

verus! {

use crate::asymmetric_numeral_system::{
    spec_ans_new, spec_decode_from_weights, spec_decode_uniform, ANSDecode, AnsView, SimpleClass,
    WeightedSymbols,
};
use crate::symbol_generator::{count_required, emit_symbols, spec_emit_seq, SymbolEmitter};

/// The 26 uppercase letters, in order.
pub open spec fn spec_uppers() -> Seq<char> {
    seq!['A', 'B', 'C', 'D', 'E', 'F', 'G', 'H', 'I', 'J', 'K', 'L', 'M', 'N', 'O', 'P', 'Q', 'R', 'S', 'T', 'U', 'V', 'W', 'X', 'Y', 'Z']
}

/// Builds the table that `spec_uppers` describes.
pub fn uppers() -> (v: Vec<char>)
    ensures
        v@ == spec_uppers(),
{
    let mut v: Vec<char> = Vec::new();
    v.push('A');
    v.push('B');
    v.push('C');
    v.push('D');
    v.push('E');
    v.push('F');
    v.push('G');
    v.push('H');
    v.push('I');
    v.push('J');
    v.push('K');
    v.push('L');
    v.push('M');
    v.push('N');
    v.push('O');
    v.push('P');
    v.push('Q');
    v.push('R');
    v.push('S');
    v.push('T');
    v.push('U');
    v.push('V');
    v.push('W');
    v.push('X');
    v.push('Y');
    v.push('Z');
    proof {
        assert(v@ =~= spec_uppers());
    }
    v
}

/// The 26 lowercase letters, in order.
pub open spec fn spec_lowers() -> Seq<char> {
    seq!['a', 'b', 'c', 'd', 'e', 'f', 'g', 'h', 'i', 'j', 'k', 'l', 'm', 'n', 'o', 'p', 'q', 'r', 's', 't', 'u', 'v', 'w', 'x', 'y', 'z']
}

/// Builds the table that `spec_lowers` describes.
pub fn lowers() -> (v: Vec<char>)
    ensures
        v@ == spec_lowers(),
{
    let mut v: Vec<char> = Vec::new();
    v.push('a');
    v.push('b');
    v.push('c');
    v.push('d');
    v.push('e');
    v.push('f');
    v.push('g');
    v.push('h');
    v.push('i');
    v.push('j');
    v.push('k');
    v.push('l');
    v.push('m');
    v.push('n');
    v.push('o');
    v.push('p');
    v.push('q');
    v.push('r');
    v.push('s');
    v.push('t');
    v.push('u');
    v.push('v');
    v.push('w');
    v.push('x');
    v.push('y');
    v.push('z');
    proof {
        assert(v@ =~= spec_lowers());
    }
    v
}

/// The 10 decimal digits, in order.
pub open spec fn spec_digits() -> Seq<char> {
    seq!['0', '1', '2', '3', '4', '5', '6', '7', '8', '9']
}

/// Builds the table that `spec_digits` describes.
pub fn digits() -> (v: Vec<char>)
    ensures
        v@ == spec_digits(),
{
    let mut v: Vec<char> = Vec::new();
    v.push('0');
    v.push('1');
    v.push('2');
    v.push('3');
    v.push('4');
    v.push('5');
    v.push('6');
    v.push('7');
    v.push('8');
    v.push('9');
    proof {
        assert(v@ =~= spec_digits());
    }
    v
}

/// The 32 printable ASCII punctuation symbols, in order.
pub open spec fn spec_misc_symbols() -> Seq<char> {
    seq!['!', '"', '#', '$', '%', '&', '\'', '(', ')', '*', '+', ',', '-', '.', '/', ':', ';', '<', '=', '>', '?', '@', '[', '\\', ']', '^', '_', '`', '{', '|', '}', '~']
}

/// Builds the table that `spec_misc_symbols` describes.
pub fn misc_symbols() -> (v: Vec<char>)
    ensures
        v@ == spec_misc_symbols(),
{
    let mut v: Vec<char> = Vec::new();
    v.push('!');
    v.push('"');
    v.push('#');
    v.push('$');
    v.push('%');
    v.push('&');
    v.push('\'');
    v.push('(');
    v.push(')');
    v.push('*');
    v.push('+');
    v.push(',');
    v.push('-');
    v.push('.');
    v.push('/');
    v.push(':');
    v.push(';');
    v.push('<');
    v.push('=');
    v.push('>');
    v.push('?');
    v.push('@');
    v.push('[');
    v.push('\\');
    v.push(']');
    v.push('^');
    v.push('_');
    v.push('`');
    v.push('{');
    v.push('|');
    v.push('}');
    v.push('~');
    proof {
        assert(v@ =~= spec_misc_symbols());
    }
    v
}

/// Appends every byte of `src` to `dst`, in order.
fn push_all(dst: &mut Vec<u8>, src: &[u8])
    ensures
        final(dst)@ == old(dst)@ + src@,
{
    let mut i: usize = 0;
    while i < src.len()
        invariant
            i <= src@.len(),
            dst@ == old(dst)@ + src@.take(i as int),
        decreases src@.len() - i,
    {
        dst.push(src[i]);
        proof {
            assert(old(dst)@ + src@.take(i + 1) =~= (old(dst)@ + src@.take(i as int)).push(
                src@[i as int],
            ));
        }
        i = i + 1;
    }
    proof {
        assert(src@.take(src@.len() as int) =~= src@);
    }
}

/// A byte-for-byte copy of a digest.
fn copy_bytes(src: &Vec<u8>) -> (r: Vec<u8>)
    ensures
        r@ == src@,
{
    let mut r: Vec<u8> = Vec::new();
    let mut i: usize = 0;
    while i < src.len()
        invariant
            i <= src@.len(),
            r@ == src@.take(i as int),
        decreases src@.len() - i,
    {
        r.push(src[i]);
        proof {
            assert(src@.take(i + 1) =~= src@.take(i as int).push(src@[i as int]));
        }
        i = i + 1;
    }
    proof {
        assert(src@.take(src@.len() as int) =~= src@);
    }
    r
}

/// The SHA-1 digest of a byte sequence, a function of the bytes alone.
pub uninterp spec fn sha1_of(data: Seq<u8>) -> Seq<u8>;

/// Relies on sha1::Sha1 through the Digest trait's one-shot `digest`:
/// the 20-byte SHA-1 digest of the input, a function of the bytes
/// alone.
#[verifier::external_body]
fn sha1_digest(data: &Vec<u8>) -> (r: Vec<u8>)
    ensures
        r@ == sha1_of(data@),
        r@.len() == 20,
{
    <sha1::Sha1 as sha1::Digest>::digest(data.as_slice()).to_vec()
}

/// The padded standard base64 form of a byte sequence, a function of
/// the bytes alone.
pub uninterp spec fn base64_of(data: Seq<u8>) -> Seq<char>;

/// Relies on base64's STANDARD engine `encode`: the padded standard
/// base64 encoding of the input, a function of the bytes alone, four
/// characters for every started group of three bytes.  The length
/// bound keeps the engine's own output-size computation from
/// overflowing, on which it would panic.
#[verifier::external_body]
fn base64_encode(data: &Vec<u8>) -> (r: String)
    requires
        4 * ((data@.len() + 2) / 3) <= usize::MAX,
    ensures
        r@ == base64_of(data@),
        r@.len() == 4 * ((data@.len() + 2) / 3),
{
    base64::Engine::encode(&base64::engine::general_purpose::STANDARD, data.as_slice())
}

/// Relies on String's FromIterator over chars: collects exactly the
/// characters of the vector, in order.
#[verifier::external_body]
fn chars_to_string(v: &Vec<char>) -> (r: String)
    ensures
        r@ == v@,
{
    String::from_iter(v.iter().copied())
}

/// The digest derived from a site and a secret, and the derivations it
/// seeds.  Every value holds the full 20-byte digest its constructor
/// computed.
pub struct Password {
    base: Vec<u8>,
}

impl Password {
    #[verifier::type_invariant]
    spec fn digest_len_fixed(&self) -> bool {
        self.base@.len() == 20
    }
}

/// The output length of an ANS derivation, in characters.
pub const ANS_OUTPUT_LEN: usize = 30;

/// A full derivation as a function of the rule and the digest alone:
/// the decoder starts on the digest and the rule's emitter is driven
/// for up to `ANS_OUTPUT_LEN` symbols, stopping early when the
/// digest's entropy runs out.
pub open spec fn spec_via_ans<SE: SymbolEmitter<char>>(e: SE, digest: Seq<u8>) -> Seq<char> {
    spec_emit_seq(e, spec_ans_new(digest), ANS_OUTPUT_LEN as nat).0
}

impl Password {
    /// The digest bytes this password derivation is seeded with.
    pub closed spec fn spec_base(&self) -> Seq<u8> {
        self.base@
    }

    /// Hashes the site and the secret into the 20-byte digest that
    /// seeds every derivation.  The hashed input is the site's bytes,
    /// then the secret's bytes, then one newline byte, so the digest
    /// matches a line-oriented hash of the same pair.
    pub fn from_site_and_password(site: &str, password: &str) -> (r: Self)
        ensures
            r.spec_base() == sha1_of(site.spec_bytes() + password.spec_bytes() + seq![10u8]),
            r.spec_base().len() == 20,
    {
        let mut data: Vec<u8> = Vec::new();
        push_all(&mut data, site.as_bytes());
        push_all(&mut data, password.as_bytes());
        data.push(10);
        proof {
            assert(data@ =~= site.spec_bytes() + password.spec_bytes() + seq![10u8]);
        }
        Self { base: sha1_digest(&data) }
    }

    /// The first 12 characters of the digest's base64 form.
    pub fn base64_short(&self) -> (r: String)
        ensures
            r@ == base64_of(self.spec_base()).take(12),
            r@.len() == 12,
    {
        proof {
            use_type_invariant(&*self);
        }
        let encoded = base64_encode(&self.base);
        let short = encoded.as_str().substring_char(0, 12);
        proof {
            assert(encoded@.subrange(0, 12) =~= base64_of(self.spec_base()).take(12));
        }
        short.to_owned()
    }

    /// Derives the output string by driving `emitter` for up to
    /// `ANS_OUTPUT_LEN` symbols against a fresh decoder over this
    /// digest.  Exhaustion before the last symbol truncates the
    /// output there: the derivation never substitutes a degraded or
    /// biased symbol, so a short digest yields a deterministic shorter
    /// string.  The result is exactly the one `spec_via_ans` names,
    /// and whenever it covers the emitter's requirement horizon, the
    /// horizon's prefix holds at least the owed number of required
    /// symbols.
    pub fn via_ans<SE: SymbolEmitter<char>>(&self, emitter: &mut SE) -> (r: String)
        requires
            old(emitter).wf(),
        ensures
            final(emitter).wf(),
            r@ == spec_via_ans(*old(emitter), self.spec_base()),
            r@.len() <= ANS_OUTPUT_LEN,
            old(emitter).req_slots() <= r@.len() ==> count_required(
                *old(emitter),
                r@.take(old(emitter).req_slots() as int),
            ) >= old(emitter).req_count(),
    {
        proof {
            use_type_invariant(&*self);
        }
        let mut ans = ANSDecode::new(copy_bytes(&self.base));
        let v = emit_symbols(emitter, &mut ans, ANS_OUTPUT_LEN);
        chars_to_string(&v)
    }
}

/// The table of characters a class picks from.
pub open spec fn spec_class_table(class: SimpleClass) -> Seq<char> {
    match class {
        SimpleClass::Upper => spec_uppers(),
        SimpleClass::Lower => spec_lowers(),
        SimpleClass::Digit => spec_digits(),
        SimpleClass::Misc => spec_misc_symbols(),
    }
}

/// One password character from a class alphabet: decode the class,
/// then pick uniformly inside that class's table.
pub open spec fn spec_weighted_password_symbol(
    st: AnsView,
    w: &WeightedSymbols<SimpleClass>,
) -> Option<(char, AnsView)> {
    match spec_decode_from_weights(st, w) {
        None => None,
        Some((i, st2)) => {
            let table = spec_class_table(w.spec_symbols()[i]);
            match spec_decode_uniform(st2, table.len() as u64) {
                None => None,
                Some((j, st3)) => Some((table[j as int], st3)),
            }
        },
    }
}

/// Emits one character by decoding a class from `weighted_symbols` and
/// then one symbol uniformly from that class's table; `None` on
/// entropy exhaustion.
#[verifier::spinoff_prover]
#[verifier::rlimit(100)]
pub fn weighted_password_symbols(
    ans: &mut ANSDecode,
    weighted_symbols: &WeightedSymbols<SimpleClass>,
) -> (r: Option<char>)
    requires
        old(ans).wf(),
        weighted_symbols.well_formed(),
    ensures
        final(ans).wf(),
        match spec_weighted_password_symbol(old(ans)@, weighted_symbols) {
            None => r is None,
            Some((c, st)) => r == Some(c) && final(ans)@ == st,
        },
{
    let class = match ans.decode_from_weights(weighted_symbols) {
        None => {
            return None;
        },
        Some(c) => *c,
    };
    let symbol_subset: Vec<char> = match class {
        SimpleClass::Upper => uppers(),
        SimpleClass::Lower => lowers(),
        SimpleClass::Digit => digits(),
        SimpleClass::Misc => misc_symbols(),
    };
    proof {
        assert(symbol_subset@ == spec_class_table(class));
        assert(symbol_subset@.len() >= 1);
    }
    match ans.decode_uniform_from(symbol_subset.as_slice()) {
        None => None,
        Some(c) => Some(*c),
    }
}

} // verus!
