//! Decoding of `settle` call data: a 4-byte selector, the ABI-encoded
//! arguments `(address[], uint256[], Trade[], Interaction[][3])`, and
//! optionally 8 bytes of metadata after them.
use vstd::prelude::*;

use crate::settlement::{u256_index, DecodedInteraction, DecodedSettlement, DecodedTrade, TradeFlags, META_DATA_LEN};

use primitive_types::{H160, H256, U256};

verus! {

/// `primitive_types::H256`, with its public field of 32 bytes.
#[verifier::external_type_specification]
pub struct ExH256(primitive_types::H256);

/// Relies on `U256::from_big_endian`: the big-endian value of at most 32
/// bytes; it panics on more.
pub assume_specification[ primitive_types::U256::from_big_endian ](slice: &[u8]) -> (r: primitive_types::U256)
    requires
        slice@.len() <= 32,
    ensures
        crate::uint::u256_val(r) == be_val(slice@),
;

/// Relies on `H160::from_slice`: the 20 bytes given; it panics on another
/// length.
pub assume_specification[ primitive_types::H160::from_slice ](src: &[u8]) -> (r: primitive_types::H160)
    requires
        src@.len() == 20,
    ensures
        r.0@ == src@,
;

/// Relies on `H256::from_slice`: the 32 bytes given; it panics on another
/// length.
pub assume_specification[ primitive_types::H256::from_slice ](src: &[u8]) -> (r: primitive_types::H256)
    requires
        src@.len() == 32,
    ensures
        r.0@ == src@,
;

/// The selector of `settle(address[],uint256[],(uint256,uint256,address,
/// uint256,uint256,uint32,bytes32,uint256,uint256,uint256,bytes)[],
/// (address,uint256,bytes)[][3])`.
pub open spec fn settle_selector() -> Seq<u8> {
    seq![0x13u8, 0xd7u8, 0x9au8, 0x0bu8]
}

/// Why call data could not be decoded.
#[derive(Debug, Clone, Copy, PartialEq, Eq)]
pub enum DecodingError {
    /// The call data does not start with the selector of `settle`.
    InvalidSelector,
    /// The arguments are not a valid encoding.
    Other,
}

/// Big-endian value of bytes.
pub open spec fn be_val(s: Seq<u8>) -> nat
    decreases s.len(),
{
    if s.len() == 0 {
        0
    } else {
        be_val(s.drop_last()) * 256 + s.last() as nat
    }
}

pub open spec fn fits(b: Seq<u8>, off: int, n: int) -> bool {
    0 <= off && 0 <= n && off + n <= b.len()
}

/// The 32-byte word at `off` as a number.
pub open spec fn word_at(b: Seq<u8>, off: int) -> nat {
    be_val(b.subrange(off, off + 32))
}

pub open spec fn uint_at(b: Seq<u8>, off: int, v: U256) -> bool {
    fits(b, off, 32) && crate::uint::u256_val(v) == word_at(b, off)
}

/// An address is the low 20 bytes of its word.
pub open spec fn address_at(b: Seq<u8>, off: int, a: H160) -> bool {
    fits(b, off, 32) && a.0@ == b.subrange(off + 12, off + 32)
}

pub open spec fn has_u32(b: Seq<u8>, off: int) -> bool {
    fits(b, off, 32) && word_at(b, off) < 0x1_0000_0000
}

pub open spec fn u32_at(b: Seq<u8>, off: int, v: u32) -> bool {
    has_u32(b, off) && word_at(b, off) == v as nat
}

/// The word at `slot` is an offset from `base` that stays inside `b`.
pub open spec fn has_target(b: Seq<u8>, base: int, slot: int) -> bool {
    fits(b, slot, 32) && 0 <= base <= b.len() && word_at(b, slot) <= b.len() - base
}

pub open spec fn target(b: Seq<u8>, base: int, slot: int) -> int {
    base + word_at(b, slot)
}

/// Dynamic bytes: a length word, then that many bytes.
pub open spec fn has_bytes(b: Seq<u8>, off: int) -> bool {
    fits(b, off, 32) && fits(b, off + 32, word_at(b, off) as int)
}

pub open spec fn bytes_at(b: Seq<u8>, off: int, v: Seq<u8>) -> bool {
    has_bytes(b, off) && v == b.subrange(off + 32, off + 32 + word_at(b, off))
}

/// A trade tuple: eleven head words, the last an offset from the tuple to
/// the signature.
pub open spec fn has_trade(b: Seq<u8>, t: int) -> bool {
    &&& fits(b, t, 352)
    &&& has_u32(b, t + 160)
    &&& has_target(b, t, t + 320)
    &&& has_bytes(b, target(b, t, t + 320))
}

pub open spec fn trade_at(b: Seq<u8>, t: int, x: DecodedTrade) -> bool {
    &&& has_trade(b, t)
    &&& uint_at(b, t, x.sell_token_index)
    &&& uint_at(b, t + 32, x.buy_token_index)
    &&& address_at(b, t + 64, x.receiver)
    &&& uint_at(b, t + 96, x.sell_amount)
    &&& uint_at(b, t + 128, x.buy_amount)
    &&& u32_at(b, t + 160, x.valid_to)
    &&& x.app_data@ == b.subrange(t + 192, t + 224)
    &&& uint_at(b, t + 224, x.fee_amount)
    &&& uint_at(b, t + 256, x.flags.0)
    &&& uint_at(b, t + 288, x.executed_amount)
    &&& bytes_at(b, target(b, t, t + 320), x.signature@)
}

/// An interaction tuple: target, value, and an offset from the tuple to the
/// call data.
pub open spec fn has_interaction(b: Seq<u8>, t: int) -> bool {
    &&& fits(b, t, 96)
    &&& has_target(b, t, t + 64)
    &&& has_bytes(b, target(b, t, t + 64))
}

pub open spec fn interaction_at(b: Seq<u8>, t: int, x: DecodedInteraction) -> bool {
    &&& has_interaction(b, t)
    &&& address_at(b, t, x.target)
    &&& uint_at(b, t + 32, x.value)
    &&& bytes_at(b, target(b, t, t + 64), x.call_data@)
}

/// Head slot of element `i` of an array whose length word is at `a`.
pub open spec fn slot(a: int, i: int) -> int {
    a + 32 + 32 * i
}

pub open spec fn has_addresses(b: Seq<u8>, a: int) -> bool {
    fits(b, a, 32) && forall|i: int| 0 <= i < word_at(b, a) ==> fits(b, #[trigger] slot(a, i), 32)
}

pub open spec fn addresses_at(b: Seq<u8>, a: int, v: Seq<H160>) -> bool {
    &&& has_addresses(b, a)
    &&& v.len() == word_at(b, a)
    &&& forall|i: int| 0 <= i < v.len() ==> address_at(b, #[trigger] slot(a, i), v[i])
}

pub open spec fn has_uints(b: Seq<u8>, a: int) -> bool {
    fits(b, a, 32) && forall|i: int| 0 <= i < word_at(b, a) ==> fits(b, #[trigger] slot(a, i), 32)
}

pub open spec fn uints_at(b: Seq<u8>, a: int, v: Seq<U256>) -> bool {
    &&& has_uints(b, a)
    &&& v.len() == word_at(b, a)
    &&& forall|i: int| 0 <= i < v.len() ==> uint_at(b, #[trigger] slot(a, i), v[i])
}

pub open spec fn has_trades(b: Seq<u8>, a: int) -> bool {
    &&& fits(b, a, 32)
    &&& forall|i: int|
        0 <= i < word_at(b, a) ==> has_target(b, a + 32, #[trigger] slot(a, i)) && has_trade(
            b,
            target(b, a + 32, slot(a, i)),
        )
}

pub open spec fn trades_at(b: Seq<u8>, a: int, v: Seq<DecodedTrade>) -> bool {
    &&& has_trades(b, a)
    &&& v.len() == word_at(b, a)
    &&& forall|i: int| 0 <= i < v.len() ==> trade_at(b, target(b, a + 32, #[trigger] slot(a, i)), v[i])
}

pub open spec fn has_interactions(b: Seq<u8>, a: int) -> bool {
    &&& fits(b, a, 32)
    &&& forall|i: int|
        0 <= i < word_at(b, a) ==> has_target(b, a + 32, #[trigger] slot(a, i)) && has_interaction(
            b,
            target(b, a + 32, slot(a, i)),
        )
}

pub open spec fn interactions_at(b: Seq<u8>, a: int, v: Seq<DecodedInteraction>) -> bool {
    &&& has_interactions(b, a)
    &&& v.len() == word_at(b, a)
    &&& forall|i: int|
        0 <= i < v.len() ==> interaction_at(b, target(b, a + 32, #[trigger] slot(a, i)), v[i])
}

/// The three interaction lists: three offsets from `f`, each to a list.
pub open spec fn has_groups(b: Seq<u8>, f: int) -> bool {
    forall|k: int|
        0 <= k < 3 ==> has_target(b, f, f + 32 * k) && has_interactions(
            b,
            #[trigger] target(b, f, f + 32 * k),
        )
}

/// The arguments of `settle` decode from `b`.
pub open spec fn has_args(b: Seq<u8>) -> bool {
    &&& has_target(b, 0, 0) && has_addresses(b, target(b, 0, 0))
    &&& has_target(b, 0, 32) && has_uints(b, target(b, 0, 32))
    &&& has_target(b, 0, 64) && has_trades(b, target(b, 0, 64))
    &&& has_target(b, 0, 96) && has_groups(b, target(b, 0, 96))
}

/// `s` holds the arguments of `settle` that `b` encodes.
pub open spec fn args_at(b: Seq<u8>, s: DecodedSettlement) -> bool {
    &&& has_args(b)
    &&& addresses_at(b, target(b, 0, 0), s.tokens@)
    &&& uints_at(b, target(b, 0, 32), s.clearing_prices@)
    &&& trades_at(b, target(b, 0, 64), s.trades@)
    &&& forall|k: int|
        0 <= k < 3 ==> interactions_at(
            b,
            #[trigger] target(b, target(b, 0, 96), target(b, 0, 96) + 32 * k),
            s.interactions[k]@,
        )
}

/// The bytes after the selector end in metadata: they are eight more than a
/// multiple of 32 and the rest decodes.
pub open spec fn has_metadata(data: Seq<u8>) -> bool {
    data.len() % 32 == 8 && has_args(data.subrange(0, data.len() - 8))
}

pub open spec fn starts_with_selector(input: Seq<u8>) -> bool {
    input.len() >= 4 && input.subrange(0, 4) == settle_selector()
}

/// `input` decodes at all.
pub open spec fn decodable(input: Seq<u8>) -> bool {
    let data = input.subrange(4, input.len() as int);
    starts_with_selector(input) && (has_metadata(data) || has_args(data))
}

/// `s` is what `input` decodes to: with metadata where the bytes allow it,
/// else without.
pub open spec fn decodes_to(input: Seq<u8>, s: DecodedSettlement) -> bool {
    let data = input.subrange(4, input.len() as int);
    &&& starts_with_selector(input)
    &&& if has_metadata(data) {
        let n = data.len() - 8;
        &&& args_at(data.subrange(0, n), s)
        &&& (s.metadata matches Some(m) && m@ == data.subrange(n, data.len() as int))
    } else {
        args_at(data, s) && s.metadata is None
    }
}

/// `x` as a `usize`, if it is at most `bound`.
fn u256_at_most(x: &U256, bound: usize) -> (r: Option<usize>)
    ensures
        r is Some <==> crate::uint::u256_val(*x) <= bound,
        r matches Some(i) ==> i as nat == crate::uint::u256_val(*x),
{
    let ghost b = crate::uint::pow64();
    let ghost rest = x.0[1] as nat + b * (x.0[2] as nat + b * x.0[3] as nat);
    assert(crate::uint::u256_val(*x) == x.0[0] as nat + b * rest);
    if x.0[1] == 0 && x.0[2] == 0 && x.0[3] == 0 {
        assert(rest == 0);
        if (x.0[0] as u128) <= (bound as u128) {
            Some(x.0[0] as usize)
        } else {
            None
        }
    } else {
        assert(rest > 0);
        assert(b * rest >= b) by (nonlinear_arith)
            requires rest > 0;
        None
    }
}

/// The bytes from `lo` to `hi`.
pub fn copy_range(b: &[u8], lo: usize, hi: usize) -> (r: Vec<u8>)
    requires
        lo <= hi <= b@.len(),
    ensures
        r@ == b@.subrange(lo as int, hi as int),
{
    let mut r: Vec<u8> = Vec::new();
    let mut i: usize = lo;
    while i < hi
        invariant
            lo <= i <= hi <= b@.len(),
            r@ == b@.subrange(lo as int, i as int),
        decreases hi - i,
    {
        r.push(b[i]);
        assert(r@ =~= b@.subrange(lo as int, i + 1));
        i = i + 1;
    }
    r
}

fn read_uint(b: &Vec<u8>, off: usize) -> (r: Option<U256>)
    ensures
        r is Some <==> fits(b@, off as int, 32),
        r matches Some(v) ==> uint_at(b@, off as int, v),
{
    if off > b.len() || b.len() - off < 32 {
        return None;
    }
    let w = copy_range(b.as_slice(), off, off + 32);
    Some(U256::from_big_endian(w.as_slice()))
}

fn read_address(b: &Vec<u8>, off: usize) -> (r: Option<H160>)
    ensures
        r is Some <==> fits(b@, off as int, 32),
        r matches Some(a) ==> address_at(b@, off as int, a),
{
    if off > b.len() || b.len() - off < 32 {
        return None;
    }
    let w = copy_range(b.as_slice(), off + 12, off + 32);
    Some(H160::from_slice(w.as_slice()))
}

/// The offset word at `slot`, added to `base`.
fn read_target(b: &Vec<u8>, base: usize, slot: usize) -> (r: Option<usize>)
    requires
        base <= b@.len(),
    ensures
        r is Some <==> has_target(b@, base as int, slot as int),
        r matches Some(t) ==> t as int == target(b@, base as int, slot as int),
{
    let v = match read_uint(b, slot) {
        Some(v) => v,
        None => return None,
    };
    match u256_at_most(&v, b.len() - base) {
        Some(o) => Some(base + o),
        None => None,
    }
}

fn read_bytes(b: &Vec<u8>, off: usize) -> (r: Option<Vec<u8>>)
    ensures
        r is Some <==> has_bytes(b@, off as int),
        r matches Some(v) ==> bytes_at(b@, off as int, v@),
{
    let n = match read_uint(b, off) {
        Some(v) => v,
        None => return None,
    };
    match u256_at_most(&n, b.len() - off - 32) {
        Some(len) => Some(copy_range(b.as_slice(), off + 32, off + 32 + len)),
        None => None,
    }
}

fn read_trade(b: &Vec<u8>, t: usize) -> (r: Option<DecodedTrade>)
    ensures
        r is Some <==> has_trade(b@, t as int),
        r matches Some(x) ==> trade_at(b@, t as int, x),
{
    if t > b.len() || b.len() - t < 352 {
        return None;
    }
    let sell_token_index = read_uint(b, t).unwrap();
    let buy_token_index = read_uint(b, t + 32).unwrap();
    let receiver = read_address(b, t + 64).unwrap();
    let sell_amount = read_uint(b, t + 96).unwrap();
    let buy_amount = read_uint(b, t + 128).unwrap();
    let valid_to_word = read_uint(b, t + 160).unwrap();
    let valid_to = match u256_at_most(&valid_to_word, 0xffff_ffff) {
        Some(v) => v as u32,
        None => return None,
    };
    let app_data = H256::from_slice(copy_range(b.as_slice(), t + 192, t + 224).as_slice()).0;
    let fee_amount = read_uint(b, t + 224).unwrap();
    let flags = read_uint(b, t + 256).unwrap();
    let executed_amount = read_uint(b, t + 288).unwrap();
    let sig_at = match read_target(b, t, t + 320) {
        Some(s) => s,
        None => return None,
    };
    let signature = match read_bytes(b, sig_at) {
        Some(s) => s,
        None => return None,
    };
    Some(
        DecodedTrade {
            sell_token_index,
            buy_token_index,
            receiver,
            sell_amount,
            buy_amount,
            valid_to,
            app_data,
            fee_amount,
            flags: TradeFlags(flags),
            executed_amount,
            signature,
        },
    )
}

fn read_interaction(b: &Vec<u8>, t: usize) -> (r: Option<DecodedInteraction>)
    ensures
        r is Some <==> has_interaction(b@, t as int),
        r matches Some(x) ==> interaction_at(b@, t as int, x),
{
    if t > b.len() || b.len() - t < 96 {
        return None;
    }
    let target = read_address(b, t).unwrap();
    let value = read_uint(b, t + 32).unwrap();
    let data_at = match read_target(b, t, t + 64) {
        Some(s) => s,
        None => return None,
    };
    let call_data = match read_bytes(b, data_at) {
        Some(s) => s,
        None => return None,
    };
    Some(DecodedInteraction { target, value, call_data })
}

/// The length word of the array at `a`, if the first `n` slots it claims
/// could fit.
fn read_len(b: &Vec<u8>, a: usize) -> (r: Option<usize>)
    ensures
        r matches Some(n) ==> fits(b@, a as int, 32) && n as nat == word_at(b@, a as int) && n <= b@.len(),
        r is None ==> !fits(b@, a as int, 32) || (word_at(b@, a as int) > b@.len() && word_at(b@, a as int) > 0 && !fits(
            b@,
            slot(a as int, word_at(b@, a as int) - 1),
            32,
        )),
{
    let v = match read_uint(b, a) {
        Some(v) => v,
        None => return None,
    };
    let r = u256_at_most(&v, b.len());
    proof {
        if r is None {
            let n = word_at(b@, a as int);
            assert(32 * (n - 1) >= n - 1) by (nonlinear_arith)
                requires n >= 1;
        }
    }
    r
}

fn read_addresses(b: &Vec<u8>, a: usize) -> (r: Option<Vec<H160>>)
    ensures
        r is Some <==> has_addresses(b@, a as int),
        r matches Some(v) ==> addresses_at(b@, a as int, v@),
{
    let n = match read_len(b, a) {
        Some(n) => n,
        None => return None,
    };
    let mut out: Vec<H160> = Vec::new();
    let len = b.len();
    let mut s: usize = a + 32;
    let mut i: usize = 0;
    while i < n
        invariant
            0 <= i <= n,
            n as nat == word_at(b@, a as int),
            fits(b@, a as int, 32),
            s as int == slot(a as int, i as int),
            s <= b@.len(),
            len == b@.len(),
            out@.len() == i,
            forall|j: int| 0 <= j < i ==> fits(b@, #[trigger] slot(a as int, j), 32) && address_at(b@, slot(a as int, j), out@[j]),
        decreases n - i,
    {
        match read_address(b, s) {
            Some(x) => out.push(x),
            None => {
                assert(!fits(b@, slot(a as int, i as int), 32));
                return None;
            },
        }
        s = s + 32;
        i = i + 1;
    }
    Some(out)
}

fn read_uints(b: &Vec<u8>, a: usize) -> (r: Option<Vec<U256>>)
    ensures
        r is Some <==> has_uints(b@, a as int),
        r matches Some(v) ==> uints_at(b@, a as int, v@),
{
    let n = match read_len(b, a) {
        Some(n) => n,
        None => return None,
    };
    let mut out: Vec<U256> = Vec::new();
    let len = b.len();
    let mut s: usize = a + 32;
    let mut i: usize = 0;
    while i < n
        invariant
            0 <= i <= n,
            n as nat == word_at(b@, a as int),
            fits(b@, a as int, 32),
            s as int == slot(a as int, i as int),
            s <= b@.len(),
            len == b@.len(),
            out@.len() == i,
            forall|j: int| 0 <= j < i ==> fits(b@, #[trigger] slot(a as int, j), 32) && uint_at(b@, slot(a as int, j), out@[j]),
        decreases n - i,
    {
        match read_uint(b, s) {
            Some(x) => out.push(x),
            None => {
                assert(!fits(b@, slot(a as int, i as int), 32));
                return None;
            },
        }
        s = s + 32;
        i = i + 1;
    }
    Some(out)
}

fn read_trades(b: &Vec<u8>, a: usize) -> (r: Option<Vec<DecodedTrade>>)
    ensures
        r is Some <==> has_trades(b@, a as int),
        r matches Some(v) ==> trades_at(b@, a as int, v@),
{
    let n = match read_len(b, a) {
        Some(n) => n,
        None => {
            proof {
                if fits(b@, a as int, 32) {
                    assert(!has_target(b@, a + 32, slot(a as int, word_at(b@, a as int) - 1)));
                }
            }
            return None;
        },
    };
    let mut out: Vec<DecodedTrade> = Vec::new();
    let len = b.len();
    let mut s: usize = a + 32;
    let mut i: usize = 0;
    while i < n
        invariant
            0 <= i <= n,
            n as nat == word_at(b@, a as int),
            fits(b@, a as int, 32),
            s as int == slot(a as int, i as int),
            s <= b@.len(),
            len == b@.len(),
            out@.len() == i,
            forall|j: int| 0 <= j < i ==> has_target(b@, a + 32, #[trigger] slot(a as int, j)) && trade_at(
                b@,
                target(b@, a + 32, slot(a as int, j)),
                out@[j],
            ),
        decreases n - i,
    {
        let t = match read_target(b, a + 32, s) {
            Some(t) => t,
            None => return None,
        };
        match read_trade(b, t) {
            Some(x) => out.push(x),
            None => return None,
        }
        s = s + 32;
        i = i + 1;
    }
    Some(out)
}

fn read_interactions(b: &Vec<u8>, a: usize) -> (r: Option<Vec<DecodedInteraction>>)
    ensures
        r is Some <==> has_interactions(b@, a as int),
        r matches Some(v) ==> interactions_at(b@, a as int, v@),
{
    let n = match read_len(b, a) {
        Some(n) => n,
        None => {
            proof {
                if fits(b@, a as int, 32) {
                    assert(!has_target(b@, a + 32, slot(a as int, word_at(b@, a as int) - 1)));
                }
            }
            return None;
        },
    };
    let mut out: Vec<DecodedInteraction> = Vec::new();
    let len = b.len();
    let mut s: usize = a + 32;
    let mut i: usize = 0;
    while i < n
        invariant
            0 <= i <= n,
            n as nat == word_at(b@, a as int),
            fits(b@, a as int, 32),
            s as int == slot(a as int, i as int),
            s <= b@.len(),
            len == b@.len(),
            out@.len() == i,
            forall|j: int| 0 <= j < i ==> has_target(b@, a + 32, #[trigger] slot(a as int, j)) && interaction_at(
                b@,
                target(b@, a + 32, slot(a as int, j)),
                out@[j],
            ),
        decreases n - i,
    {
        let t = match read_target(b, a + 32, s) {
            Some(t) => t,
            None => return None,
        };
        match read_interaction(b, t) {
            Some(x) => out.push(x),
            None => return None,
        }
        s = s + 32;
        i = i + 1;
    }
    Some(out)
}

fn read_group(b: &Vec<u8>, f: usize, k: usize) -> (r: Option<Vec<DecodedInteraction>>)
    requires
        f <= b@.len(),
        k < 3,
    ensures
        r is Some <==> has_target(b@, f as int, f + 32 * k) && has_interactions(
            b@,
            target(b@, f as int, f + 32 * k),
        ),
        r matches Some(v) ==> interactions_at(b@, target(b@, f as int, f + 32 * k), v@),
{
    if b.len() - f < 32 * k {
        return None;
    }
    let t = match read_target(b, f, f + 32 * k) {
        Some(t) => t,
        None => return None,
    };
    read_interactions(b, t)
}

/// The arguments of `settle` encoded in `b`; the metadata is left empty.
pub fn decode_arguments(b: &Vec<u8>) -> (r: Option<DecodedSettlement>)
    ensures
        r is Some <==> has_args(b@),
        r matches Some(s) ==> args_at(b@, s) && s.metadata is None,
{
    let tokens = match read_target(b, 0, 0) {
        Some(a) => match read_addresses(b, a) {
            Some(v) => v,
            None => return None,
        },
        None => return None,
    };
    let clearing_prices = match read_target(b, 0, 32) {
        Some(a) => match read_uints(b, a) {
            Some(v) => v,
            None => return None,
        },
        None => return None,
    };
    let trades = match read_target(b, 0, 64) {
        Some(a) => match read_trades(b, a) {
            Some(v) => v,
            None => return None,
        },
        None => return None,
    };
    let f = match read_target(b, 0, 96) {
        Some(f) => f,
        None => return None,
    };
    let g0 = match read_group(b, f, 0) {
        Some(v) => v,
        None => {
            proof {
                let t = target(b@, f as int, f + 32 * 0);
            }
            return None;
        },
    };
    let g1 = match read_group(b, f, 1) {
        Some(v) => v,
        None => {
            proof {
                let t = target(b@, f as int, f + 32 * 1);
            }
            return None;
        },
    };
    let g2 = match read_group(b, f, 2) {
        Some(v) => v,
        None => {
            proof {
                let t = target(b@, f as int, f + 32 * 2);
            }
            return None;
        },
    };
    let s = DecodedSettlement {
        tokens,
        clearing_prices,
        trades,
        interactions: [g0, g1, g2],
        metadata: None,
    };
    proof {
        assert forall|k: int| 0 <= k < 3 implies has_target(b@, f as int, f + 32 * k) && has_interactions(
            b@,
            #[trigger] target(b@, f as int, f + 32 * k),
        ) by {
            if k == 0 {
            } else if k == 1 {
            } else {
            }
        }
        assert forall|k: int| 0 <= k < 3 implies interactions_at(
            b@,
            #[trigger] target(b@, target(b@, 0, 96), target(b@, 0, 96) + 32 * k),
            s.interactions[k]@,
        ) by {
            if k == 0 {
            } else if k == 1 {
            } else {
            }
        }
    }
    Some(s)
}

impl DecodedSettlement {
    /// Decodes the call data of a `settle` call. Where the bytes after the
    /// selector are eight more than a multiple of 32 and all but the last
    /// eight decode, those eight are the metadata; otherwise all of them are
    /// decoded as arguments, and bytes after the encoding are ignored.
    pub fn new(input: &[u8]) -> (r: Result<DecodedSettlement, DecodingError>)
        ensures
            r is Ok <==> decodable(input@),
            r matches Ok(s) ==> decodes_to(input@, s),
            r matches Err(e) ==> (e == DecodingError::InvalidSelector <==> !starts_with_selector(input@)),
    {
        if input.len() < 4 || input[0] != 0x13 || input[1] != 0xd7 || input[2] != 0x9a || input[3] != 0x0b {
            proof {
                if input@.len() >= 4 {
                    let p = input@.subrange(0, 4);
                    if p == settle_selector() {
                        assert(p[0] == 0x13u8 && p[1] == 0xd7u8 && p[2] == 0x9au8 && p[3] == 0x0bu8);
                    }
                }
            }
            return Err(DecodingError::InvalidSelector);
        }
        assert(input@.subrange(0, 4) =~= settle_selector());
        let data = copy_range(input, 4, input.len());
        let n = data.len();
        if n % 32 == META_DATA_LEN {
            let args = copy_range(data.as_slice(), 0, n - META_DATA_LEN);
            match decode_arguments(&args) {
                Some(s) => {
                    let metadata = [data[n - 8], data[n - 7], data[n - 6], data[n - 5], data[n - 4], data[n - 3], data[n - 2], data[n - 1]];
                    assert(metadata@ =~= data@.subrange(n - 8, n as int));
                    return Ok(DecodedSettlement { metadata: Some(metadata), ..s });
                },
                None => {},
            }
        }
        match decode_arguments(&data) {
            Some(s) => Ok(s),
            None => Err(DecodingError::Other),
        }
    }
}

/// Call data whose arguments fill whole words and are followed by an
/// eight-byte envelope decodes, with the envelope as metadata; without the
/// envelope it decodes too, with no metadata; both results hold exactly the
/// arguments that `args` encodes, and so the same ones.
pub proof fn lemma_metadata_envelope(
    args: Seq<u8>,
    meta: Seq<u8>,
    with_meta: DecodedSettlement,
    without_meta: DecodedSettlement,
)
    requires
        args.len() % 32 == 0,
        meta.len() == META_DATA_LEN,
        has_args(args),
    ensures
        decodable(settle_selector() + args + meta),
        decodable(settle_selector() + args),
        decodes_to(settle_selector() + args + meta, with_meta) ==> (with_meta.metadata matches Some(m)
            && m@ == meta) && args_at(args, with_meta),
        decodes_to(settle_selector() + args, without_meta) ==> without_meta.metadata is None && args_at(
            args,
            without_meta,
        ),
        decodes_to(settle_selector() + args + meta, with_meta) && decodes_to(settle_selector() + args, without_meta)
            ==> same_arguments(with_meta, without_meta),
{
    let input1 = settle_selector() + args + meta;
    let data1 = input1.subrange(4, input1.len() as int);
    assert(data1 =~= args + meta);
    assert(data1.subrange(0, data1.len() - 8) =~= args);
    assert(data1.subrange(data1.len() - 8, data1.len() as int) =~= meta);
    assert(input1.subrange(0, 4) =~= settle_selector());
    assert(has_metadata(data1));
    let input2 = settle_selector() + args;
    let data2 = input2.subrange(4, input2.len() as int);
    assert(data2 =~= args);
    assert(input2.subrange(0, 4) =~= settle_selector());
    assert(!has_metadata(data2));
    if decodes_to(input1, with_meta) && decodes_to(input2, without_meta) {
        lemma_arguments_unique(args, with_meta, without_meta);
    }
}

pub open spec fn same_trade(a: DecodedTrade, b: DecodedTrade) -> bool {
    &&& a.sell_token_index == b.sell_token_index
    &&& a.buy_token_index == b.buy_token_index
    &&& a.receiver == b.receiver
    &&& a.sell_amount == b.sell_amount
    &&& a.buy_amount == b.buy_amount
    &&& a.valid_to == b.valid_to
    &&& a.app_data == b.app_data
    &&& a.fee_amount == b.fee_amount
    &&& a.flags == b.flags
    &&& a.executed_amount == b.executed_amount
    &&& a.signature@ == b.signature@
}

pub open spec fn same_interaction(a: DecodedInteraction, b: DecodedInteraction) -> bool {
    a.target == b.target && a.value == b.value && a.call_data@ == b.call_data@
}

/// The arguments of two settlements are the same, field by field.
pub open spec fn same_arguments(a: DecodedSettlement, b: DecodedSettlement) -> bool {
    &&& a.tokens@ == b.tokens@
    &&& a.clearing_prices@ == b.clearing_prices@
    &&& a.trades@.len() == b.trades@.len()
    &&& forall|i: int| 0 <= i < a.trades@.len() ==> same_trade(#[trigger] a.trades@[i], b.trades@[i])
    &&& forall|k: int|
        0 <= k < 3 ==> (#[trigger] a.interactions[k])@.len() == b.interactions[k]@.len() && forall|i: int|
            0 <= i < a.interactions[k]@.len() ==> same_interaction(#[trigger] a.interactions[k]@[i], b.interactions[k]@[i])
}

proof fn lemma_address_unique(b: Seq<u8>, off: int, x: H160, y: H160)
    requires
        address_at(b, off, x),
        address_at(b, off, y),
    ensures
        x == y,
{
    assert(x.0 =~= y.0);
}

proof fn lemma_trade_unique(b: Seq<u8>, t: int, x: DecodedTrade, y: DecodedTrade)
    requires
        trade_at(b, t, x),
        trade_at(b, t, y),
    ensures
        same_trade(x, y),
{
    crate::uint::lemma_u256_injective(x.sell_token_index, y.sell_token_index);
    crate::uint::lemma_u256_injective(x.buy_token_index, y.buy_token_index);
    lemma_address_unique(b, t + 64, x.receiver, y.receiver);
    crate::uint::lemma_u256_injective(x.sell_amount, y.sell_amount);
    crate::uint::lemma_u256_injective(x.buy_amount, y.buy_amount);
    assert(x.app_data =~= y.app_data);
    crate::uint::lemma_u256_injective(x.fee_amount, y.fee_amount);
    crate::uint::lemma_u256_injective(x.flags.0, y.flags.0);
    crate::uint::lemma_u256_injective(x.executed_amount, y.executed_amount);
}

proof fn lemma_interaction_unique(b: Seq<u8>, t: int, x: DecodedInteraction, y: DecodedInteraction)
    requires
        interaction_at(b, t, x),
        interaction_at(b, t, y),
    ensures
        same_interaction(x, y),
{
    lemma_address_unique(b, t, x.target, y.target);
    crate::uint::lemma_u256_injective(x.value, y.value);
}

/// The bytes determine the arguments: two settlements that both hold the
/// arguments that `b` encodes hold the same ones.
pub proof fn lemma_arguments_unique(b: Seq<u8>, x: DecodedSettlement, y: DecodedSettlement)
    requires
        args_at(b, x),
        args_at(b, y),
    ensures
        same_arguments(x, y),
{
    let ta = target(b, 0, 0);
    assert forall|i: int| 0 <= i < x.tokens@.len() implies x.tokens@[i] == y.tokens@[i] by {
        assert(address_at(b, slot(ta, i), x.tokens@[i]));
        assert(address_at(b, slot(ta, i), y.tokens@[i]));
        lemma_address_unique(b, slot(ta, i), x.tokens@[i], y.tokens@[i]);
    }
    assert(x.tokens@ =~= y.tokens@);
    let pa = target(b, 0, 32);
    assert forall|i: int| 0 <= i < x.clearing_prices@.len() implies x.clearing_prices@[i] == y.clearing_prices@[i] by {
        assert(uint_at(b, slot(pa, i), x.clearing_prices@[i]));
        assert(uint_at(b, slot(pa, i), y.clearing_prices@[i]));
        crate::uint::lemma_u256_injective(x.clearing_prices@[i], y.clearing_prices@[i]);
    }
    assert(x.clearing_prices@ =~= y.clearing_prices@);
    let tr = target(b, 0, 64);
    assert forall|i: int| 0 <= i < x.trades@.len() implies same_trade(#[trigger] x.trades@[i], y.trades@[i]) by {
        let t = target(b, tr + 32, slot(tr, i));
        assert(trade_at(b, t, x.trades@[i]));
        assert(trade_at(b, t, y.trades@[i]));
        lemma_trade_unique(b, t, x.trades@[i], y.trades@[i]);
    }
    let f = target(b, 0, 96);
    assert forall|k: int| 0 <= k < 3 implies (#[trigger] x.interactions[k])@.len() == y.interactions[k]@.len() && forall|i: int|
        0 <= i < x.interactions[k]@.len() ==> same_interaction(#[trigger] x.interactions[k]@[i], y.interactions[k]@[i]) by {
        let a = target(b, f, f + 32 * k);
        assert(interactions_at(b, a, x.interactions[k]@));
        assert(interactions_at(b, a, y.interactions[k]@));
        assert forall|i: int| 0 <= i < x.interactions[k]@.len() implies same_interaction(#[trigger] x.interactions[k]@[i], y.interactions[k]@[i]) by {
            let t = target(b, a + 32, slot(a, i));
            assert(interaction_at(b, t, x.interactions[k]@[i]));
            assert(interaction_at(b, t, y.interactions[k]@[i]));
            lemma_interaction_unique(b, t, x.interactions[k]@[i], y.interactions[k]@[i]);
        }
    }
}

}
