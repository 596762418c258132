//! The ABI encoding of `settle` arguments, as a specification, and the proof
//! that decoding it gives back what was encoded.
use vstd::prelude::*;

use crate::calldata::{
    address_at, args_at, be_val, has_args, has_target, slot, target, uint_at, word_at,
};
use crate::settlement::{DecodedInteraction, DecodedSettlement, DecodedTrade};
use primitive_types::{H160, U256};

verus! {

pub open spec fn p256(n: nat) -> nat
    decreases n,
{
    if n == 0 {
        1
    } else {
        256 * p256((n - 1) as nat)
    }
}

/// The low `n` bytes of `v`, big-endian.
pub open spec fn be_bytes(v: nat, n: nat) -> Seq<u8>
    decreases n,
{
    if n == 0 {
        Seq::empty()
    } else {
        be_bytes(v / 256, (n - 1) as nat).push((v % 256) as u8)
    }
}

pub open spec fn word(v: nat) -> Seq<u8> {
    be_bytes(v, 32)
}

proof fn lemma_be_bytes(v: nat, n: nat)
    ensures
        be_bytes(v, n).len() == n,
        be_val(be_bytes(v, n)) == v % p256(n),
    decreases n,
{
    if n > 0 {
        let q = v / 256;
        let r = v % 256;
        let m = p256((n - 1) as nat);
        lemma_be_bytes(q, (n - 1) as nat);
        let s = be_bytes(v, n);
        assert(s.drop_last() == be_bytes(q, (n - 1) as nat));
        assert(s.last() == r as u8);
        assert(m > 0) by {
            lemma_p256_positive((n - 1) as nat);
        }
        vstd::arithmetic::div_mod::lemma_fundamental_div_mod(v as int, 256);
        vstd::arithmetic::div_mod::lemma_fundamental_div_mod(q as int, m as int);
        vstd::arithmetic::div_mod::lemma_div_denominator(v as int, 256, m as int);
        vstd::arithmetic::div_mod::lemma_fundamental_div_mod(v as int, 256 * m as int);
        let d = q / m;
        assert((256 * m) * d == 256 * (m * d)) by (nonlinear_arith);
        assert(v as int == 256 * q + r);
        assert(q as int == m * d + q % m);
        assert(v as int == (256 * m) * (v as int / (256 * m) as int) + v as int % (256 * m) as int);
        assert((q % m) * 256 + r == v % (256 * m));
    }
}

proof fn lemma_p256_positive(n: nat)
    ensures
        p256(n) > 0,
    decreases n,
{
    if n > 0 {
        lemma_p256_positive((n - 1) as nat);
    }
}

proof fn lemma_p256_add(a: nat, b: nat)
    ensures
        p256(a + b) == p256(a) * p256(b),
    decreases a,
{
    if a > 0 {
        lemma_p256_add((a - 1) as nat, b);
        assert(p256(a + b) == 256 * p256((a - 1 + b) as nat));
        assert(256 * (p256((a - 1) as nat) * p256(b)) == (256 * p256((a - 1) as nat)) * p256(b)) by (nonlinear_arith);
    } else {
        assert(p256(0) == 1);
    }
}

proof fn lemma_p256_32()
    ensures
        p256(32) == crate::uint::u256_modulus(),
{
    reveal_with_fuel(p256, 9);
    assert(p256(8) == crate::uint::pow64());
    lemma_p256_add(8, 8);
    lemma_p256_add(16, 16);
    let p = crate::uint::pow64();
    assert(p256(32) == (p * p) * (p * p));
    assert((p * p) * (p * p) == p * p * p * p) by (nonlinear_arith);
}

proof fn lemma_word(v: nat)
    requires
        v < crate::uint::u256_modulus(),
    ensures
        word(v).len() == 32,
        be_val(word(v)) == v,
{
    lemma_be_bytes(v, 32);
    lemma_p256_32();
    vstd::arithmetic::div_mod::lemma_small_mod(v, p256(32));
}

/// `x` stands in `b` at `off`.
pub open spec fn at(b: Seq<u8>, off: int, x: Seq<u8>) -> bool {
    0 <= off && off + x.len() <= b.len() && b.subrange(off, off + x.len()) == x
}

proof fn lemma_at_trans(b: Seq<u8>, off: int, x: Seq<u8>, i: int, y: Seq<u8>)
    requires
        at(b, off, x),
        at(x, i, y),
    ensures
        at(b, off + i, y),
{
    assert(b.subrange(off + i, off + i + y.len()) =~= x.subrange(i, i + y.len()));
}

proof fn lemma_at_concat(x: Seq<u8>, y: Seq<u8>)
    ensures
        at(x + y, 0, x),
        at(x + y, x.len() as int, y),
{
    assert((x + y).subrange(0, x.len() as int) =~= x);
    assert((x + y).subrange(x.len() as int, (x.len() + y.len()) as int) =~= y);
}

/// The parts, one after another.
pub open spec fn concat(parts: Seq<Seq<u8>>) -> Seq<u8>
    decreases parts.len(),
{
    if parts.len() == 0 {
        Seq::empty()
    } else {
        concat(parts.drop_last()) + parts.last()
    }
}

/// Where part `i` starts.
pub open spec fn start_of(parts: Seq<Seq<u8>>, i: int) -> int {
    concat(parts.subrange(0, i)).len() as int
}

proof fn lemma_concat_at(parts: Seq<Seq<u8>>, i: int)
    requires
        0 <= i < parts.len(),
    ensures
        at(concat(parts), start_of(parts, i), parts[i]),
    decreases parts.len(),
{
    let init = parts.drop_last();
    lemma_at_concat(concat(init), parts.last());
    if i == parts.len() - 1 {
        assert(parts.subrange(0, i) =~= init);
    } else {
        assert(init.subrange(0, i) =~= parts.subrange(0, i));
        assert(init[i] == parts[i]);
        lemma_concat_at(init, i);
        lemma_at_trans(concat(parts), 0, concat(init), start_of(init, i), parts[i]);
    }
}

proof fn lemma_concat_words(parts: Seq<Seq<u8>>, i: int)
    requires
        0 <= i < parts.len(),
        forall|j: int| 0 <= j < parts.len() ==> (#[trigger] parts[j]).len() == 32,
    ensures
        start_of(parts, i) == 32 * i,
    decreases i,
{
    if i > 0 {
        lemma_concat_words(parts, i - 1);
        assert(parts.subrange(0, i).drop_last() =~= parts.subrange(0, i - 1));
        assert(parts.subrange(0, i).last() == parts[i - 1]);
    } else {
        assert(parts.subrange(0, 0) =~= Seq::<Seq<u8>>::empty());
    }
}

/// Dynamic bytes: their length, the bytes, and zeros up to a whole word.
pub open spec fn bytes_enc(d: Seq<u8>) -> Seq<u8> {
    word(d.len()) + d + Seq::new((if d.len() % 32 == 0 { 0 } else { 32 - d.len() % 32 }) as nat, |i: int| 0u8)
}

pub open spec fn address_word(a: H160) -> Seq<u8> {
    Seq::new(12, |i: int| 0u8) + a.0@
}

pub open spec fn uint_word(v: U256) -> Seq<u8> {
    word(crate::uint::u256_val(v))
}

/// A list of dynamic parts: its length, the offset of each part from the
/// end of the length word, and the parts.
pub open spec fn list_enc(parts: Seq<Seq<u8>>) -> Seq<u8> {
    let n = parts.len();
    word(n) + concat(Seq::new(n, |i: int| word((32 * n + start_of(parts, i)) as nat))) + concat(parts)
}

/// A list of static words: its length and the words.
pub open spec fn words_enc(ws: Seq<Seq<u8>>) -> Seq<u8> {
    word(ws.len()) + concat(ws)
}

pub open spec fn trade_head(t: DecodedTrade) -> Seq<Seq<u8>> {
    seq![
        uint_word(t.sell_token_index),
        uint_word(t.buy_token_index),
        address_word(t.receiver),
        uint_word(t.sell_amount),
        uint_word(t.buy_amount),
        word(t.valid_to as nat),
        t.app_data@,
        uint_word(t.fee_amount),
        uint_word(t.flags.0),
        uint_word(t.executed_amount),
        word(352),
    ]
}

/// A trade: eleven head words, the last the offset of the signature, then
/// the signature.
pub open spec fn trade_enc(t: DecodedTrade) -> Seq<u8> {
    concat(trade_head(t)) + bytes_enc(t.signature@)
}

pub open spec fn interaction_head(x: DecodedInteraction) -> Seq<Seq<u8>> {
    seq![address_word(x.target), uint_word(x.value), word(96)]
}

/// An interaction: target, value and the offset of its call data, then the
/// call data.
pub open spec fn interaction_enc(x: DecodedInteraction) -> Seq<u8> {
    concat(interaction_head(x)) + bytes_enc(x.call_data@)
}

pub open spec fn interactions_enc(xs: Seq<DecodedInteraction>) -> Seq<u8> {
    list_enc(Seq::new(xs.len(), |i: int| interaction_enc(xs[i])))
}

pub open spec fn group_parts(s: DecodedSettlement) -> Seq<Seq<u8>> {
    seq![
        interactions_enc(s.interactions[0]@),
        interactions_enc(s.interactions[1]@),
        interactions_enc(s.interactions[2]@),
    ]
}

/// The three interaction lists: an offset to each, then the lists.
pub open spec fn groups_enc(s: DecodedSettlement) -> Seq<u8> {
    let parts = group_parts(s);
    concat(Seq::new(3, |k: int| word((96 + start_of(parts, k)) as nat))) + concat(parts)
}

pub open spec fn tokens_enc(s: DecodedSettlement) -> Seq<u8> {
    words_enc(Seq::new(s.tokens@.len(), |i: int| address_word(s.tokens@[i])))
}

pub open spec fn prices_enc(s: DecodedSettlement) -> Seq<u8> {
    words_enc(Seq::new(s.clearing_prices@.len(), |i: int| uint_word(s.clearing_prices@[i])))
}

pub open spec fn trades_enc(s: DecodedSettlement) -> Seq<u8> {
    list_enc(Seq::new(s.trades@.len(), |i: int| trade_enc(s.trades@[i])))
}

pub open spec fn arguments_head(s: DecodedSettlement) -> Seq<Seq<u8>> {
    let t = tokens_enc(s).len();
    let p = prices_enc(s).len();
    let r = trades_enc(s).len();
    seq![word(128), word((128 + t) as nat), word((128 + t + p) as nat), word((128 + t + p + r) as nat)]
}

/// The ABI encoding of the arguments of `settle`: four offsets, then the
/// tokens, the prices, the trades and the interactions.
#[verifier::opaque]
pub open spec fn encode_arguments(s: DecodedSettlement) -> Seq<u8> {
    concat(arguments_head(s)) + tokens_enc(s) + prices_enc(s) + trades_enc(s) + groups_enc(s)
}

proof fn lemma_word_len(v: nat)
    ensures
        word(v).len() == 32,
{
    lemma_be_bytes(v, 32);
}

proof fn lemma_word_at(b: Seq<u8>, off: int, v: nat)
    requires
        at(b, off, word(v)),
        v < crate::uint::u256_modulus(),
    ensures
        crate::calldata::fits(b, off, 32),
        word_at(b, off) == v,
{
    lemma_word(v);
}

proof fn lemma_uint_at(b: Seq<u8>, off: int, v: U256)
    requires
        at(b, off, uint_word(v)),
    ensures
        uint_at(b, off, v),
{
    crate::uint::lemma_u256_bounds(v);
    lemma_word_at(b, off, crate::uint::u256_val(v));
}

proof fn lemma_address_word_at(b: Seq<u8>, off: int, a: H160)
    requires
        at(b, off, address_word(a)),
    ensures
        address_at(b, off, a),
{
    lemma_at_concat(Seq::new(12, |i: int| 0u8), a.0@);
    lemma_at_trans(b, off, address_word(a), 12, a.0@);
}

proof fn lemma_bytes_enc_at(b: Seq<u8>, off: int, d: Seq<u8>)
    requires
        at(b, off, bytes_enc(d)),
        b.len() < crate::uint::u256_modulus(),
    ensures
        crate::calldata::bytes_at(b, off, d),
{
    let w = word(d.len());
    let z = Seq::new((if d.len() % 32 == 0 { 0 } else { 32 - d.len() % 32 }) as nat, |i: int| 0u8);
    lemma_word_len(d.len());
    lemma_at_concat(w + d, z);
    lemma_at_concat(w, d);
    assert(bytes_enc(d) == (w + d) + z);
    lemma_at_trans(b, off, bytes_enc(d), 0, w + d);
    lemma_at_trans(b, off, w + d, 0, w);
    lemma_at_trans(b, off, w + d, 32, d);
    lemma_word_at(b, off, d.len());
}

proof fn lemma_words_concat(parts: Seq<Seq<u8>>)
    requires
        forall|j: int| 0 <= j < parts.len() ==> (#[trigger] parts[j]).len() == 32,
    ensures
        concat(parts).len() == 32 * parts.len(),
        forall|i: int| 0 <= i < parts.len() ==> #[trigger] start_of(parts, i) == 32 * i,
    decreases parts.len(),
{
    if parts.len() > 0 {
        lemma_words_concat(parts.drop_last());
    }
    assert forall|i: int| 0 <= i < parts.len() implies #[trigger] start_of(parts, i) == 32 * i by {
        lemma_concat_words(parts, i);
    }
}

proof fn lemma_trade_enc_at(b: Seq<u8>, t: int, x: DecodedTrade)
    requires
        at(b, t, trade_enc(x)),
        b.len() < crate::uint::u256_modulus(),
    ensures
        crate::calldata::trade_at(b, t, x),
{
    let head = trade_head(x);
    lemma_word_len(x.valid_to as nat);
    lemma_word_len(352);
    lemma_word_len(crate::uint::u256_val(x.sell_token_index));
    lemma_word_len(crate::uint::u256_val(x.buy_token_index));
    lemma_word_len(crate::uint::u256_val(x.sell_amount));
    lemma_word_len(crate::uint::u256_val(x.buy_amount));
    lemma_word_len(crate::uint::u256_val(x.fee_amount));
    lemma_word_len(crate::uint::u256_val(x.flags.0));
    lemma_word_len(crate::uint::u256_val(x.executed_amount));
    assert forall|j: int| 0 <= j < head.len() implies (#[trigger] head[j]).len() == 32 by {}
    lemma_words_concat(head);
    lemma_at_concat(concat(head), bytes_enc(x.signature@));
    lemma_at_trans(b, t, trade_enc(x), 0, concat(head));
    lemma_at_trans(b, t, trade_enc(x), 352, bytes_enc(x.signature@));
    assert forall|k: int| 0 <= k < 11 implies at(b, t + 32 * k, #[trigger] head[k]) by {
        lemma_concat_at(head, k);
        lemma_at_trans(b, t, concat(head), 32 * k, head[k]);
    }
    assert(at(b, t + 32 * 0, head[0]));
    lemma_uint_at(b, t, x.sell_token_index);
    assert(at(b, t + 32 * 1, head[1]));
    lemma_uint_at(b, t + 32, x.buy_token_index);
    assert(at(b, t + 32 * 2, head[2]));
    lemma_address_word_at(b, t + 64, x.receiver);
    assert(at(b, t + 32 * 3, head[3]));
    lemma_uint_at(b, t + 96, x.sell_amount);
    assert(at(b, t + 32 * 4, head[4]));
    lemma_uint_at(b, t + 128, x.buy_amount);
    assert(at(b, t + 32 * 5, head[5]));
    lemma_word_at(b, t + 160, x.valid_to as nat);
    assert(at(b, t + 32 * 6, head[6]));
    assert(at(b, t + 32 * 7, head[7]));
    lemma_uint_at(b, t + 224, x.fee_amount);
    assert(at(b, t + 32 * 8, head[8]));
    lemma_uint_at(b, t + 256, x.flags.0);
    assert(at(b, t + 32 * 9, head[9]));
    lemma_uint_at(b, t + 288, x.executed_amount);
    assert(at(b, t + 32 * 10, head[10]));
    lemma_word_at(b, t + 320, 352);
    lemma_bytes_enc_at(b, t + 352, x.signature@);
}

proof fn lemma_interaction_enc_at(b: Seq<u8>, t: int, x: DecodedInteraction)
    requires
        at(b, t, interaction_enc(x)),
        b.len() < crate::uint::u256_modulus(),
    ensures
        crate::calldata::interaction_at(b, t, x),
{
    let head = interaction_head(x);
    lemma_word_len(96);
    lemma_word_len(crate::uint::u256_val(x.value));
    assert forall|j: int| 0 <= j < head.len() implies (#[trigger] head[j]).len() == 32 by {}
    lemma_words_concat(head);
    lemma_at_concat(concat(head), bytes_enc(x.call_data@));
    lemma_at_trans(b, t, interaction_enc(x), 0, concat(head));
    lemma_at_trans(b, t, interaction_enc(x), 96, bytes_enc(x.call_data@));
    assert forall|k: int| 0 <= k < 3 implies at(b, t + 32 * k, #[trigger] head[k]) by {
        lemma_concat_at(head, k);
        lemma_at_trans(b, t, concat(head), 32 * k, head[k]);
    }
    assert(at(b, t + 32 * 0, head[0]));
    lemma_address_word_at(b, t, x.target);
    assert(at(b, t + 32 * 1, head[1]));
    lemma_uint_at(b, t + 32, x.value);
    assert(at(b, t + 32 * 2, head[2]));
    lemma_word_at(b, t + 64, 96);
    lemma_bytes_enc_at(b, t + 96, x.call_data@);
}

/// Where a list encoded at `a` puts its parts.
proof fn lemma_list_at(b: Seq<u8>, a: int, parts: Seq<Seq<u8>>)
    requires
        at(b, a, list_enc(parts)),
        b.len() < crate::uint::u256_modulus(),
    ensures
        crate::calldata::fits(b, a, 32),
        word_at(b, a) == parts.len(),
        forall|i: int|
            0 <= i < parts.len() ==> has_target(b, a + 32, #[trigger] slot(a, i)) && target(b, a + 32, slot(a, i)) == a + 32
                + 32 * parts.len() + start_of(parts, i) && at(b, target(b, a + 32, slot(a, i)), parts[i]),
{
    let n = parts.len();
    let offs = Seq::new(n, |i: int| word((32 * n + start_of(parts, i)) as nat));
    assert forall|j: int| 0 <= j < offs.len() implies (#[trigger] offs[j]).len() == 32 by {
        lemma_word_len((32 * n + start_of(parts, j)) as nat);
    }
    lemma_words_concat(offs);
    lemma_word_len(n);
    let w = word(n);
    lemma_at_concat(w + concat(offs), concat(parts));
    lemma_at_concat(w, concat(offs));
    lemma_at_trans(b, a, list_enc(parts), 0, w + concat(offs));
    lemma_at_trans(b, a, w + concat(offs), 0, w);
    lemma_at_trans(b, a, w + concat(offs), 32, concat(offs));
    lemma_at_trans(b, a, list_enc(parts), (32 + 32 * n) as int, concat(parts));
    lemma_word_at(b, a, n);
    assert forall|i: int| 0 <= i < n implies has_target(b, a + 32, #[trigger] slot(a, i)) && target(b, a + 32, slot(a, i)) == a + 32
        + 32 * n + start_of(parts, i) && at(b, target(b, a + 32, slot(a, i)), parts[i]) by {
        lemma_concat_at(parts, i);
        lemma_at_trans(b, a + 32 + 32 * n, concat(parts), start_of(parts, i), parts[i]);
        lemma_concat_at(offs, i);
        lemma_at_trans(b, a + 32, concat(offs), 32 * i, offs[i]);
        lemma_word_at(b, a + 32 + 32 * i, (32 * n + start_of(parts, i)) as nat);
    }
}

/// Where a list of words encoded at `a` puts them.
proof fn lemma_words_at(b: Seq<u8>, a: int, ws: Seq<Seq<u8>>)
    requires
        at(b, a, words_enc(ws)),
        forall|j: int| 0 <= j < ws.len() ==> (#[trigger] ws[j]).len() == 32,
        b.len() < crate::uint::u256_modulus(),
    ensures
        crate::calldata::fits(b, a, 32),
        word_at(b, a) == ws.len(),
        forall|i: int| 0 <= i < ws.len() ==> at(b, #[trigger] slot(a, i), ws[i]),
{
    lemma_words_concat(ws);
    lemma_word_len(ws.len());
    lemma_at_concat(word(ws.len()), concat(ws));
    lemma_at_trans(b, a, words_enc(ws), 0, word(ws.len()));
    lemma_at_trans(b, a, words_enc(ws), 32, concat(ws));
    lemma_word_at(b, a, ws.len());
    assert forall|i: int| 0 <= i < ws.len() implies at(b, #[trigger] slot(a, i), ws[i]) by {
        lemma_concat_at(ws, i);
        lemma_at_trans(b, a + 32, concat(ws), 32 * i, ws[i]);
    }
}

proof fn lemma_interactions_enc_at(b: Seq<u8>, a: int, xs: Seq<DecodedInteraction>)
    requires
        at(b, a, interactions_enc(xs)),
        b.len() < crate::uint::u256_modulus(),
    ensures
        crate::calldata::interactions_at(b, a, xs),
{
    let parts = Seq::new(xs.len(), |i: int| interaction_enc(xs[i]));
    lemma_list_at(b, a, parts);
    assert forall|i: int| 0 <= i < xs.len() implies crate::calldata::interaction_at(b, target(b, a + 32, #[trigger] slot(a, i)), xs[i]) by {
        assert(at(b, target(b, a + 32, slot(a, i)), parts[i]));
        lemma_interaction_enc_at(b, target(b, a + 32, slot(a, i)), xs[i]);
    }
}

proof fn lemma_trades_enc_at(b: Seq<u8>, a: int, s: DecodedSettlement)
    requires
        at(b, a, trades_enc(s)),
        b.len() < crate::uint::u256_modulus(),
    ensures
        crate::calldata::trades_at(b, a, s.trades@),
{
    let xs = s.trades@;
    let parts = Seq::new(xs.len(), |i: int| trade_enc(xs[i]));
    lemma_list_at(b, a, parts);
    assert forall|i: int| 0 <= i < xs.len() implies crate::calldata::trade_at(b, target(b, a + 32, #[trigger] slot(a, i)), xs[i]) by {
        assert(at(b, target(b, a + 32, slot(a, i)), parts[i]));
        lemma_trade_enc_at(b, target(b, a + 32, slot(a, i)), xs[i]);
    }
}

proof fn lemma_tokens_enc_at(b: Seq<u8>, a: int, s: DecodedSettlement)
    requires
        at(b, a, tokens_enc(s)),
        b.len() < crate::uint::u256_modulus(),
    ensures
        crate::calldata::addresses_at(b, a, s.tokens@),
{
    let ws = Seq::new(s.tokens@.len(), |i: int| address_word(s.tokens@[i]));
    lemma_words_at(b, a, ws);
    assert forall|i: int| 0 <= i < ws.len() implies address_at(b, #[trigger] slot(a, i), s.tokens@[i]) by {
        lemma_address_word_at(b, slot(a, i), s.tokens@[i]);
    }
}

proof fn lemma_prices_enc_at(b: Seq<u8>, a: int, s: DecodedSettlement)
    requires
        at(b, a, prices_enc(s)),
        b.len() < crate::uint::u256_modulus(),
    ensures
        crate::calldata::uints_at(b, a, s.clearing_prices@),
{
    let ws = Seq::new(s.clearing_prices@.len(), |i: int| uint_word(s.clearing_prices@[i]));
    assert forall|j: int| 0 <= j < ws.len() implies (#[trigger] ws[j]).len() == 32 by {
        lemma_word_len(crate::uint::u256_val(s.clearing_prices@[j]));
    }
    lemma_words_at(b, a, ws);
    assert forall|i: int| 0 <= i < ws.len() implies uint_at(b, #[trigger] slot(a, i), s.clearing_prices@[i]) by {
        lemma_uint_at(b, slot(a, i), s.clearing_prices@[i]);
    }
}

proof fn lemma_group_offsets(b: Seq<u8>, f: int, s: DecodedSettlement, k: int)
    requires
        at(b, f, groups_enc(s)),
        b.len() < crate::uint::u256_modulus(),
        0 <= k < 3,
    ensures
        has_target(b, f, f + 32 * k),
        at(b, target(b, f, f + 32 * k), group_parts(s)[k]),
{
    let parts = group_parts(s);
    let offs = Seq::new(3, |k: int| word((96 + start_of(parts, k)) as nat));
    assert forall|j: int| 0 <= j < offs.len() implies (#[trigger] offs[j]).len() == 32 by {
        lemma_word_len((96 + start_of(parts, j)) as nat);
    }
    lemma_words_concat(offs);
    lemma_at_concat(concat(offs), concat(parts));
    lemma_at_trans(b, f, groups_enc(s), 0, concat(offs));
    lemma_at_trans(b, f, groups_enc(s), 96, concat(parts));
    lemma_concat_at(parts, k);
    lemma_at_trans(b, f + 96, concat(parts), start_of(parts, k), parts[k]);
    lemma_concat_at(offs, k);
    lemma_at_trans(b, f, concat(offs), 32 * k, offs[k]);
    lemma_word_at(b, f + 32 * k, (96 + start_of(parts, k)) as nat);
}

proof fn lemma_group_at(b: Seq<u8>, f: int, s: DecodedSettlement, k: int)
    requires
        at(b, f, groups_enc(s)),
        b.len() < crate::uint::u256_modulus(),
        0 <= k < 3,
    ensures
        has_target(b, f, f + 32 * k),
        crate::calldata::interactions_at(b, target(b, f, f + 32 * k), s.interactions[k]@),
{
    lemma_group_offsets(b, f, s, k);
    let t = target(b, f, f + 32 * k);
    if k == 0 {
        lemma_interactions_enc_at(b, t, s.interactions[0]@);
    } else if k == 1 {
        lemma_interactions_enc_at(b, t, s.interactions[1]@);
    } else {
        lemma_interactions_enc_at(b, t, s.interactions[2]@);
    }
}

/// Where the encoding of the arguments puts its parts.
proof fn lemma_arguments_layout(s: DecodedSettlement)
    requires
        encode_arguments(s).len() < crate::uint::u256_modulus(),
    ensures
        ({
            let b = encode_arguments(s);
            let t = tokens_enc(s).len() as int;
            let p = prices_enc(s).len() as int;
            let r = trades_enc(s).len() as int;
            &&& has_target(b, 0, 0) && target(b, 0, 0) == 128
            &&& has_target(b, 0, 32) && target(b, 0, 32) == 128 + t
            &&& has_target(b, 0, 64) && target(b, 0, 64) == 128 + t + p
            &&& has_target(b, 0, 96) && target(b, 0, 96) == 128 + t + p + r
            &&& at(b, 128, tokens_enc(s))
            &&& at(b, 128 + t, prices_enc(s))
            &&& at(b, 128 + t + p, trades_enc(s))
            &&& at(b, 128 + t + p + r, groups_enc(s))
        }),
{
    reveal(encode_arguments);
    let b = encode_arguments(s);
    let head = arguments_head(s);
    let h = concat(head);
    let t = tokens_enc(s);
    let p = prices_enc(s);
    let r = trades_enc(s);
    let g = groups_enc(s);
    lemma_word_len(128);
    lemma_word_len((128 + t.len()) as nat);
    lemma_word_len((128 + t.len() + p.len()) as nat);
    lemma_word_len((128 + t.len() + p.len() + r.len()) as nat);
    assert forall|j: int| 0 <= j < head.len() implies (#[trigger] head[j]).len() == 32 by {}
    lemma_words_concat(head);
    lemma_at_concat(h + t + p + r, g);
    lemma_at_concat(h + t + p, r);
    lemma_at_concat(h + t, p);
    lemma_at_concat(h, t);
    lemma_at_trans(b, 0, h + t + p + r, 0, h + t + p);
    lemma_at_trans(b, 0, h + t + p, 0, h + t);
    lemma_at_trans(b, 0, h + t, 0, h);
    lemma_at_trans(b, 0, h + t, 128, t);
    lemma_at_trans(b, 0, h + t + p, (128 + t.len()) as int, p);
    lemma_at_trans(b, 0, h + t + p + r, (128 + t.len() + p.len()) as int, r);
    lemma_concat_at(head, 0);
    lemma_at_trans(b, 0, h, 0, head[0]);
    lemma_word_at(b, 0, 128);
    lemma_concat_at(head, 1);
    lemma_at_trans(b, 0, h, 32, head[1]);
    lemma_word_at(b, 32, (128 + t.len()) as nat);
    lemma_concat_at(head, 2);
    lemma_at_trans(b, 0, h, 64, head[2]);
    lemma_word_at(b, 64, (128 + t.len() + p.len()) as nat);
    lemma_concat_at(head, 3);
    lemma_at_trans(b, 0, h, 96, head[3]);
    lemma_word_at(b, 96, (128 + t.len() + p.len() + r.len()) as nat);
}

proof fn lemma_encoding_groups(s: DecodedSettlement)
    requires
        encode_arguments(s).len() < crate::uint::u256_modulus(),
    ensures
        has_target(encode_arguments(s), 0, 96),
        crate::calldata::has_groups(encode_arguments(s), target(encode_arguments(s), 0, 96)),
        ({
            let b = encode_arguments(s);
            let f = target(b, 0, 96);
            forall|k: int|
                0 <= k < 3 ==> has_target(b, f, f + 32 * k) && crate::calldata::interactions_at(
                    b,
                    #[trigger] target(b, f, f + 32 * k),
                    s.interactions[k]@,
                )
        }),
{
    let b = encode_arguments(s);
    lemma_arguments_layout(s);
    let f = target(b, 0, 96);
    lemma_group_at(b, f, s, 0);
    lemma_group_at(b, f, s, 1);
    lemma_group_at(b, f, s, 2);
    assert forall|k: int| 0 <= k < 3 implies has_target(b, f, f + 32 * k) && crate::calldata::interactions_at(
        b,
        #[trigger] target(b, f, f + 32 * k),
        s.interactions[k]@,
    ) by {
        if k == 0 {
            assert(f + 32 * k == f + 32 * 0);
        } else if k == 1 {
            assert(f + 32 * k == f + 32 * 1);
        } else {
            assert(f + 32 * k == f + 32 * 2);
        }
    }
    assert(crate::calldata::has_groups(b, f)) by {
        assert forall|k: int| 0 <= k < 3 implies has_target(b, f, f + 32 * k) && crate::calldata::has_interactions(
            b,
            #[trigger] target(b, f, f + 32 * k),
        ) by {
            if k == 0 {
                assert(f + 32 * k == f + 32 * 0);
            } else if k == 1 {
                assert(f + 32 * k == f + 32 * 1);
            } else {
                assert(f + 32 * k == f + 32 * 2);
            }
        }
    }
}

/// The first three arguments decode from their encoding.
proof fn lemma_encoding_lists(s: DecodedSettlement)
    requires
        encode_arguments(s).len() < crate::uint::u256_modulus(),
    ensures
        crate::calldata::addresses_at(encode_arguments(s), target(encode_arguments(s), 0, 0), s.tokens@),
        crate::calldata::uints_at(encode_arguments(s), target(encode_arguments(s), 0, 32), s.clearing_prices@),
        crate::calldata::trades_at(encode_arguments(s), target(encode_arguments(s), 0, 64), s.trades@),
        has_target(encode_arguments(s), 0, 0),
        has_target(encode_arguments(s), 0, 32),
        has_target(encode_arguments(s), 0, 64),
        has_target(encode_arguments(s), 0, 96),
{
    let b = encode_arguments(s);
    lemma_arguments_layout(s);
    let f = target(b, 0, 96);
    lemma_tokens_enc_at(b, target(b, 0, 0), s);
    lemma_prices_enc_at(b, target(b, 0, 32), s);
    lemma_trades_enc_at(b, target(b, 0, 64), s);
}

/// The encoding of a settlement's arguments decodes, to exactly those
/// arguments.
proof fn lemma_encoding_decodes(s: DecodedSettlement)
    requires
        encode_arguments(s).len() < crate::uint::u256_modulus(),
    ensures
        args_at(encode_arguments(s), s),
{
    lemma_encoding_lists(s);
    lemma_encoding_groups(s);
    let b = encode_arguments(s);
    assert(has_args(b));
}

/// Round trip: the encoding of a settlement's arguments decodes, and to
/// exactly those arguments; any settlement decoded from it has the same
/// arguments as the one encoded.
pub proof fn lemma_encoding_round_trip(s: DecodedSettlement, decoded: DecodedSettlement)
    requires
        encode_arguments(s).len() < crate::uint::u256_modulus(),
    ensures
        has_args(encode_arguments(s)),
        args_at(encode_arguments(s), s),
        args_at(encode_arguments(s), decoded) ==> crate::calldata::same_arguments(decoded, s),
{
    lemma_encoding_decodes(s);
    if args_at(encode_arguments(s), decoded) {
        crate::calldata::lemma_arguments_unique(encode_arguments(s), decoded, s);
    }
}

proof fn lemma_add_whole(a: int, b: int)
    requires
        a % 32 == 0,
        b % 32 == 0,
    ensures
        (a + b) % 32 == 0,
{
    vstd::arithmetic::div_mod::lemma_add_mod_noop(a, b, 32);
}

proof fn lemma_concat_words_len(parts: Seq<Seq<u8>>)
    requires
        forall|j: int| 0 <= j < parts.len() ==> (#[trigger] parts[j]).len() % 32 == 0,
    ensures
        concat(parts).len() % 32 == 0,
    decreases parts.len(),
{
    if parts.len() > 0 {
        let init = parts.drop_last();
        assert forall|j: int| 0 <= j < init.len() implies (#[trigger] init[j]).len() % 32 == 0 by {
            assert(init[j] == parts[j]);
        }
        lemma_concat_words_len(init);
        assert(parts.last() == parts[parts.len() - 1]);
        lemma_add_whole(concat(init).len() as int, parts.last().len() as int);
    }
}

proof fn lemma_bytes_enc_len(d: Seq<u8>)
    ensures
        bytes_enc(d).len() % 32 == 0,
{
    lemma_word_len(d.len());
    let n = d.len() as int;
    let pad: int = if n % 32 == 0 { 0 } else { 32 - n % 32 };
    vstd::arithmetic::div_mod::lemma_fundamental_div_mod(n, 32);
    assert(n + pad == 32 * (n / 32 + (if n % 32 == 0 { 0int } else { 1int })));
    vstd::arithmetic::div_mod::lemma_mod_multiples_basic(n / 32 + (if n % 32 == 0 { 0int } else { 1int }), 32);
    lemma_add_whole(32, n + pad);
    assert(bytes_enc(d).len() == 32 + n + pad);
}

proof fn lemma_list_enc_len(parts: Seq<Seq<u8>>)
    requires
        forall|j: int| 0 <= j < parts.len() ==> (#[trigger] parts[j]).len() % 32 == 0,
    ensures
        list_enc(parts).len() % 32 == 0,
{
    let n = parts.len();
    let offs = Seq::new(n, |i: int| word((32 * n + start_of(parts, i)) as nat));
    assert forall|j: int| 0 <= j < offs.len() implies (#[trigger] offs[j]).len() == 32 by {
        lemma_word_len((32 * n + start_of(parts, j)) as nat);
    }
    lemma_words_concat(offs);
    lemma_concat_words_len(parts);
    lemma_word_len(n);
    vstd::arithmetic::div_mod::lemma_mod_multiples_basic(n as int, 32);
    lemma_add_whole(32, (32 * n) as int);
    lemma_add_whole((32 + 32 * n) as int, concat(parts).len() as int);
}

proof fn lemma_words_enc_len(ws: Seq<Seq<u8>>)
    requires
        forall|j: int| 0 <= j < ws.len() ==> (#[trigger] ws[j]).len() == 32,
    ensures
        words_enc(ws).len() % 32 == 0,
{
    lemma_words_concat(ws);
    lemma_word_len(ws.len());
    vstd::arithmetic::div_mod::lemma_mod_multiples_basic(ws.len() as int, 32);
    lemma_add_whole(32, (32 * ws.len()) as int);
}

proof fn lemma_trade_enc_whole(x: DecodedTrade)
    ensures
        trade_enc(x).len() % 32 == 0,
{
    let h = trade_head(x);
    lemma_word_len(x.valid_to as nat);
    lemma_word_len(352);
    lemma_word_len(crate::uint::u256_val(x.sell_token_index));
    lemma_word_len(crate::uint::u256_val(x.buy_token_index));
    lemma_word_len(crate::uint::u256_val(x.sell_amount));
    lemma_word_len(crate::uint::u256_val(x.buy_amount));
    lemma_word_len(crate::uint::u256_val(x.fee_amount));
    lemma_word_len(crate::uint::u256_val(x.flags.0));
    lemma_word_len(crate::uint::u256_val(x.executed_amount));
    assert forall|q: int| 0 <= q < h.len() implies (#[trigger] h[q]).len() == 32 by {}
    lemma_words_concat(h);
    lemma_bytes_enc_len(x.signature@);
    lemma_add_whole(352, bytes_enc(x.signature@).len() as int);
}

proof fn lemma_interaction_enc_whole(x: DecodedInteraction)
    ensures
        interaction_enc(x).len() % 32 == 0,
{
    let h = interaction_head(x);
    lemma_word_len(96);
    lemma_word_len(crate::uint::u256_val(x.value));
    assert forall|q: int| 0 <= q < h.len() implies (#[trigger] h[q]).len() == 32 by {}
    lemma_words_concat(h);
    lemma_bytes_enc_len(x.call_data@);
    lemma_add_whole(96, bytes_enc(x.call_data@).len() as int);
}

proof fn lemma_interactions_enc_whole(xs: Seq<DecodedInteraction>)
    ensures
        interactions_enc(xs).len() % 32 == 0,
{
    let parts = Seq::new(xs.len(), |i: int| interaction_enc(xs[i]));
    assert forall|j: int| 0 <= j < parts.len() implies (#[trigger] parts[j]).len() % 32 == 0 by {
        lemma_interaction_enc_whole(xs[j]);
    }
    lemma_list_enc_len(parts);
}

proof fn lemma_tokens_prices_whole(s: DecodedSettlement)
    ensures
        tokens_enc(s).len() % 32 == 0,
        prices_enc(s).len() % 32 == 0,
{
    let tw = Seq::new(s.tokens@.len(), |i: int| address_word(s.tokens@[i]));
    assert forall|j: int| 0 <= j < tw.len() implies (#[trigger] tw[j]).len() == 32 by {}
    lemma_words_enc_len(tw);
    let pw = Seq::new(s.clearing_prices@.len(), |i: int| uint_word(s.clearing_prices@[i]));
    assert forall|j: int| 0 <= j < pw.len() implies (#[trigger] pw[j]).len() == 32 by {
        lemma_word_len(crate::uint::u256_val(s.clearing_prices@[j]));
    }
    lemma_words_enc_len(pw);
}

proof fn lemma_trades_whole(s: DecodedSettlement)
    ensures
        trades_enc(s).len() % 32 == 0,
{
    let tr = Seq::new(s.trades@.len(), |i: int| trade_enc(s.trades@[i]));
    assert forall|j: int| 0 <= j < tr.len() implies (#[trigger] tr[j]).len() % 32 == 0 by {
        lemma_trade_enc_whole(s.trades@[j]);
    }
    lemma_list_enc_len(tr);
}

proof fn lemma_groups_whole(s: DecodedSettlement)
    ensures
        groups_enc(s).len() % 32 == 0,
{
    let gp = group_parts(s);
    lemma_interactions_enc_whole(s.interactions[0]@);
    lemma_interactions_enc_whole(s.interactions[1]@);
    lemma_interactions_enc_whole(s.interactions[2]@);
    assert forall|k: int| 0 <= k < 3 implies (#[trigger] gp[k]).len() % 32 == 0 by {
        if k == 0 {
        } else if k == 1 {
        } else {
        }
    }
    lemma_concat_words_len(gp);
    let go = Seq::new(3, |k: int| word((96 + start_of(gp, k)) as nat));
    assert forall|j: int| 0 <= j < go.len() implies (#[trigger] go[j]).len() == 32 by {
        lemma_word_len((96 + start_of(gp, j)) as nat);
    }
    lemma_words_concat(go);
    lemma_add_whole(96, concat(gp).len() as int);
}

/// The encoding of the arguments fills whole words.
proof fn lemma_encoding_whole_words(s: DecodedSettlement)
    ensures
        encode_arguments(s).len() % 32 == 0,
{
    reveal(encode_arguments);
    let head = arguments_head(s);
    let t = tokens_enc(s).len() as int;
    let p = prices_enc(s).len() as int;
    let r = trades_enc(s).len() as int;
    let g = groups_enc(s).len() as int;
    lemma_word_len(128);
    lemma_word_len((128 + t) as nat);
    lemma_word_len((128 + t + p) as nat);
    lemma_word_len((128 + t + p + r) as nat);
    assert forall|j: int| 0 <= j < head.len() implies (#[trigger] head[j]).len() == 32 by {}
    lemma_words_concat(head);
    lemma_tokens_prices_whole(s);
    lemma_trades_whole(s);
    lemma_groups_whole(s);
    lemma_add_whole(128, t);
    lemma_add_whole(128 + t, p);
    lemma_add_whole(128 + t + p, r);
    lemma_add_whole(128 + t + p + r, g);
    assert(encode_arguments(s).len() == 128 + t + p + r + g);
}

/// Call data made of the selector and the encoding of a settlement's
/// arguments decodes, without metadata, to the same arguments.
pub proof fn lemma_call_data_round_trip(s: DecodedSettlement, decoded: DecodedSettlement)
    requires
        encode_arguments(s).len() < crate::uint::u256_modulus(),
    ensures
        crate::calldata::decodable(crate::calldata::settle_selector() + encode_arguments(s)),
        crate::calldata::decodes_to(crate::calldata::settle_selector() + encode_arguments(s), decoded) ==> decoded.metadata is None
            && crate::calldata::same_arguments(decoded, s),
{
    let enc = encode_arguments(s);
    let input = crate::calldata::settle_selector() + enc;
    lemma_encoding_round_trip(s, decoded);
    lemma_encoding_whole_words(s);
    assert(input.subrange(0, 4) =~= crate::calldata::settle_selector());
    assert(input.subrange(4, input.len() as int) =~= enc);
    assert(!crate::calldata::has_metadata(enc));
}

}
