//! The verdict of the bad-token probe. Nine calls are traced on a fork of the
//! chain: the balances around a transfer of `amount` from a holder into the
//! settlement contract, a transfer on to a fresh recipient, and an approval
//! of the largest amount. A token that moves amounts other than it was told
//! to, or refuses a call, is bad.
use vstd::prelude::*;


use crate::uint::{u256_eq, u256_lt};
use primitive_types::{H160, U256};

verus! {

/// How many calls the probe traces.
pub const TRACE_COUNT: usize = 9;

/// How much of the token the holder must have at least.
pub const MIN_AMOUNT: u64 = 100_000;

/// How many times the probe is run while the holder's balance keeps
/// changing under it.
pub const MAX_RETRIES: usize = 3;

/// What a traced call did, as far as the verdict needs it.
pub enum TransactionOutcome {
    /// It reverted, with this error.
    Failed(String),
    /// It succeeded and used this much gas.
    Succeeded { gas_used: U256 },
    /// The trace holds neither an error nor a call result.
    NoResult,
}

/// One traced call: what it returned, and what became of it where it was a
/// transaction (`None` where the node sent no trace for it).
pub struct CallTrace {
    pub output: Vec<u8>,
    pub transaction: Option<TransactionOutcome>,
}

/// Why a token is bad.
#[derive(Debug, Clone, Copy, PartialEq, Eq, Structural)]
pub enum BadTokenReason {
    NoPool,
    CantDecodeInitialOwnerBalance,
    CantTransferIntoSettlement,
    CantTransferOutOfSettlement,
    CantDecodeInitialSettlementBalance,
    CantDecodeMiddleSettlementBalance,
    CantDecodeFinalSettlementBalance,
    CantDecodeRecipientBalanceBefore,
    CantDecodeRecipientBalanceAfter,
    TotalSupplyOverflow,
    BalanceAfterInTransferMismatch,
    BalanceAfterOutTransferMismatch,
    RecipientBalanceMismatch,
    CantApproveMaxAmount,
}

pub enum TokenQuality {
    Good,
    /// Bad, with the error of the failed call where there is one.
    Bad { reason: BadTokenReason, detail: String },
}

/// Why the probe gave no verdict.
#[derive(Debug, Clone, Copy, PartialEq, Eq, Structural)]
pub enum DetectError {
    /// The holder's balance is below the amount: it changed since it was
    /// read, and the probe may be run again.
    BalanceChanged,
    UnexpectedNumberOfTraces,
    /// A transaction's trace is missing or has no call result.
    MissingTrace,
}

/// A returned word as a number.
pub open spec fn decoded(output: Seq<u8>) -> Option<nat> {
    if output.len() == 32 {
        Some(crate::calldata::be_val(output))
    } else {
        None
    }
}

/// Whether a transaction went through: `Ok(None)` if it did, `Ok(Some(e))`
/// with the error if it reverted.
pub open spec fn transaction_spec(t: CallTrace) -> Result<Option<Seq<char>>, DetectError> {
    match t.transaction {
        Some(TransactionOutcome::Failed(e)) => Ok(Some(e@)),
        Some(TransactionOutcome::Succeeded { .. }) => Ok(None),
        _ => Err(DetectError::MissingTrace),
    }
}

/// The error of a reverted transaction.
pub open spec fn failure_of(t: CallTrace) -> Seq<char> {
    match t.transaction {
        Some(TransactionOutcome::Failed(e)) => e@,
        _ => Seq::empty(),
    }
}

pub open spec fn bad(reason: BadTokenReason, detail: Seq<char>) -> Result<Option<(BadTokenReason, Seq<char>)>, DetectError> {
    Ok(Some((reason, detail)))
}

/// The verdict on traces `t` for `amount`: `Ok(None)` for a good token,
/// `Ok(Some((reason, detail)))` for a bad one. Checked in order: the number
/// of traces, the holder's balance (0), the transfer in (2) and out (5), the
/// balances of the settlement contract before (1), between (3) and after
/// (6) and of the recipient before (4) and after (7), that the transfers
/// moved exactly `amount`, and the approval (8).
pub open spec fn verdict(t: Seq<CallTrace>, amount: nat) -> Result<Option<(BadTokenReason, Seq<char>)>, DetectError> {
    let e = Seq::<char>::empty();
    if t.len() != 9 {
        Err(DetectError::UnexpectedNumberOfTraces)
    } else if decoded(t[0].output@) is None {
        bad(BadTokenReason::CantDecodeInitialOwnerBalance, e)
    } else if decoded(t[0].output@).unwrap() < amount {
        Err(DetectError::BalanceChanged)
    } else if transaction_spec(t[2]) is Err {
        Err(DetectError::MissingTrace)
    } else if transaction_spec(t[2]) matches Ok(Some(_)) {
        bad(BadTokenReason::CantTransferIntoSettlement, failure_of(t[2]))
    } else if transaction_spec(t[5]) is Err {
        Err(DetectError::MissingTrace)
    } else if transaction_spec(t[5]) matches Ok(Some(_)) {
        bad(BadTokenReason::CantTransferOutOfSettlement, failure_of(t[5]))
    } else if decoded(t[1].output@) is None {
        bad(BadTokenReason::CantDecodeInitialSettlementBalance, e)
    } else if decoded(t[3].output@) is None {
        bad(BadTokenReason::CantDecodeMiddleSettlementBalance, e)
    } else if decoded(t[6].output@) is None {
        bad(BadTokenReason::CantDecodeFinalSettlementBalance, e)
    } else if decoded(t[4].output@) is None {
        bad(BadTokenReason::CantDecodeRecipientBalanceBefore, e)
    } else if decoded(t[7].output@) is None {
        bad(BadTokenReason::CantDecodeRecipientBalanceAfter, e)
    } else {
        let before_in = decoded(t[1].output@).unwrap();
        let after_in = decoded(t[3].output@).unwrap();
        let after_out = decoded(t[6].output@).unwrap();
        let recipient_before = decoded(t[4].output@).unwrap();
        let recipient_after = decoded(t[7].output@).unwrap();
        if before_in + amount >= crate::uint::u256_modulus() {
            bad(BadTokenReason::TotalSupplyOverflow, e)
        } else if after_in != before_in + amount {
            bad(BadTokenReason::BalanceAfterInTransferMismatch, e)
        } else if after_out != before_in {
            bad(BadTokenReason::BalanceAfterOutTransferMismatch, e)
        } else if recipient_before + amount >= crate::uint::u256_modulus() {
            bad(BadTokenReason::TotalSupplyOverflow, e)
        } else if recipient_after != recipient_before + amount {
            bad(BadTokenReason::RecipientBalanceMismatch, e)
        } else if transaction_spec(t[8]) is Err {
            Err(DetectError::MissingTrace)
        } else if transaction_spec(t[8]) matches Ok(Some(_)) {
            bad(BadTokenReason::CantApproveMaxAmount, failure_of(t[8]))
        } else {
            Ok(None)
        }
    }
}

pub open spec fn quality_matches(r: Result<TokenQuality, DetectError>, v: Result<Option<(BadTokenReason, Seq<char>)>, DetectError>) -> bool {
    match v {
        Err(e) => r == Err::<TokenQuality, DetectError>(e),
        Ok(None) => r matches Ok(TokenQuality::Good),
        Ok(Some((reason, detail))) => r matches Ok(TokenQuality::Bad { reason: r2, detail: d2 }) && r2 == reason && d2@ == detail,
    }
}

fn decode_u256(output: &Vec<u8>) -> (r: Option<U256>)
    ensures
        r is Some <==> decoded(output@) is Some,
        r matches Some(v) ==> crate::uint::u256_val(v) == decoded(output@).unwrap(),
{
    if output.len() != 32 {
        return None;
    }
    Some(U256::from_big_endian(output.as_slice()))
}

fn transaction_ok(t: &CallTrace) -> (r: Result<Option<String>, DetectError>)
    ensures
        match transaction_spec(*t) {
            Err(e) => r == Err::<Option<String>, DetectError>(e),
            Ok(None) => r matches Ok(None),
            Ok(Some(err)) => r matches Ok(Some(s)) && s@ == err,
        },
{
    match &t.transaction {
        Some(TransactionOutcome::Failed(e)) => Ok(Some(e.as_str().to_owned())),
        Some(TransactionOutcome::Succeeded { .. }) => Ok(None),
        _ => Err(DetectError::MissingTrace),
    }
}

fn bad_token(reason: BadTokenReason) -> (r: TokenQuality)
    ensures
        r matches TokenQuality::Bad { reason: r2, detail } && r2 == reason && detail@ == Seq::<char>::empty(),
{
    let detail = String::new();
    TokenQuality::Bad { reason, detail }
}

/// See `verdict`.
pub fn handle_response(traces: &Vec<CallTrace>, amount: U256) -> (r: Result<TokenQuality, DetectError>)
    ensures
        quality_matches(r, verdict(traces@, crate::uint::u256_val(amount))),
{
    if traces.len() != TRACE_COUNT {
        return Err(DetectError::UnexpectedNumberOfTraces);
    }
    match decode_u256(&traces[0].output) {
        Some(balance) => {
            if u256_lt(&balance, &amount) {
                return Err(DetectError::BalanceChanged);
            }
        },
        None => return Ok(bad_token(BadTokenReason::CantDecodeInitialOwnerBalance)),
    }
    match transaction_ok(&traces[2]) {
        Err(e) => return Err(e),
        Ok(Some(err)) => return Ok(TokenQuality::Bad { reason: BadTokenReason::CantTransferIntoSettlement, detail: err }),
        Ok(None) => {},
    }
    match transaction_ok(&traces[5]) {
        Err(e) => return Err(e),
        Ok(Some(err)) => return Ok(TokenQuality::Bad { reason: BadTokenReason::CantTransferOutOfSettlement, detail: err }),
        Ok(None) => {},
    }
    let before_in = match decode_u256(&traces[1].output) {
        Some(b) => b,
        None => return Ok(bad_token(BadTokenReason::CantDecodeInitialSettlementBalance)),
    };
    let after_in = match decode_u256(&traces[3].output) {
        Some(b) => b,
        None => return Ok(bad_token(BadTokenReason::CantDecodeMiddleSettlementBalance)),
    };
    let after_out = match decode_u256(&traces[6].output) {
        Some(b) => b,
        None => return Ok(bad_token(BadTokenReason::CantDecodeFinalSettlementBalance)),
    };
    let recipient_before = match decode_u256(&traces[4].output) {
        Some(b) => b,
        None => return Ok(bad_token(BadTokenReason::CantDecodeRecipientBalanceBefore)),
    };
    let recipient_after = match decode_u256(&traces[7].output) {
        Some(b) => b,
        None => return Ok(bad_token(BadTokenReason::CantDecodeRecipientBalanceAfter)),
    };
    let computed_after_in = match before_in.checked_add(amount) {
        Some(v) => v,
        None => return Ok(bad_token(BadTokenReason::TotalSupplyOverflow)),
    };
    if !u256_eq(&after_in, &computed_after_in) {
        return Ok(bad_token(BadTokenReason::BalanceAfterInTransferMismatch));
    }
    if !u256_eq(&after_out, &before_in) {
        return Ok(bad_token(BadTokenReason::BalanceAfterOutTransferMismatch));
    }
    let computed_recipient_after = match recipient_before.checked_add(amount) {
        Some(v) => v,
        None => return Ok(bad_token(BadTokenReason::TotalSupplyOverflow)),
    };
    if !u256_eq(&computed_recipient_after, &recipient_after) {
        return Ok(bad_token(BadTokenReason::RecipientBalanceMismatch));
    }
    match transaction_ok(&traces[8]) {
        Err(e) => Err(e),
        Ok(Some(err)) => Ok(TokenQuality::Bad { reason: BadTokenReason::CantApproveMaxAmount, detail: err }),
        Ok(None) => Ok(TokenQuality::Good),
    }
}

/// Whether another attempt is due after attempt number `attempt` (from
/// zero) ended in `result`: only a changed balance is retried, and at most
/// `MAX_RETRIES` attempts are made.
pub fn retry_after(attempt: usize, result: &Result<TokenQuality, DetectError>) -> (r: bool)
    ensures
        r == (result matches Err(DetectError::BalanceChanged) && attempt + 1 < MAX_RETRIES),
{
    match result {
        Err(DetectError::BalanceChanged) => attempt < MAX_RETRIES - 1,
        _ => false,
    }
}

/// A call to trace: its sender (none for a plain read), the token it is
/// made to, and its call data.
pub struct CallRequest {
    pub from: Option<H160>,
    pub to: H160,
    pub data: Vec<u8>,
}

/// Relies on `U256::to_big_endian`: the 32 big-endian bytes of the value.
#[verifier::external_body]
fn u256_be_bytes(v: &U256) -> (r: Vec<u8>)
    ensures
        r@.len() == 32,
        crate::calldata::be_val(r@) == crate::uint::u256_val(*v),
{
    let mut bytes = vec![0u8; 32];
    v.to_big_endian(&mut bytes);
    bytes
}

/// `balanceOf(address)`.
pub open spec fn balance_of_selector() -> Seq<u8> {
    seq![0x70u8, 0xa0u8, 0x82u8, 0x31u8]
}

/// `transfer(address,uint256)`.
pub open spec fn transfer_selector() -> Seq<u8> {
    seq![0xa9u8, 0x05u8, 0x9cu8, 0xbbu8]
}

/// `approve(address,uint256)`.
pub open spec fn approve_selector() -> Seq<u8> {
    seq![0x09u8, 0x5eu8, 0xa7u8, 0xb3u8]
}

/// Call data of `selector(account)`.
pub open spec fn is_call1(data: Seq<u8>, selector: Seq<u8>, account: H160) -> bool {
    data == selector + crate::abi_encoding::address_word(account)
}

/// Call data of `selector(account, amount)`.
pub open spec fn is_call2(data: Seq<u8>, selector: Seq<u8>, account: H160, amount: nat) -> bool {
    &&& data.len() == 68
    &&& data.subrange(0, 36) == selector + crate::abi_encoding::address_word(account)
    &&& crate::calldata::be_val(data.subrange(36, 68)) == amount
}

fn address_call(selector: [u8; 4], account: &H160) -> (r: Vec<u8>)
    ensures
        r@ == selector@ + crate::abi_encoding::address_word(*account),
{
    let mut r: Vec<u8> = Vec::new();
    let mut i: usize = 0;
    while i < 4
        invariant
            0 <= i <= 4,
            r@ == selector@.subrange(0, i as int),
        decreases 4 - i,
    {
        r.push(selector[i]);
        assert(r@ =~= selector@.subrange(0, i + 1));
        i = i + 1;
    }
    let mut j: usize = 0;
    while j < 12
        invariant
            0 <= j <= 12,
            r@ == selector@ + Seq::new(j as nat, |k: int| 0u8),
        decreases 12 - j,
    {
        r.push(0);
        assert(r@ =~= selector@ + Seq::new((j + 1) as nat, |k: int| 0u8));
        j = j + 1;
    }
    let mut k: usize = 0;
    while k < 20
        invariant
            0 <= k <= 20,
            r@ == selector@ + Seq::new(12, |k: int| 0u8) + account.0@.subrange(0, k as int),
        decreases 20 - k,
    {
        r.push(account.0[k]);
        assert(r@ =~= selector@ + Seq::new(12, |k: int| 0u8) + account.0@.subrange(0, k + 1));
        k = k + 1;
    }
    assert(account.0@.subrange(0, 20) =~= account.0@);
    assert(r@ =~= selector@ + crate::abi_encoding::address_word(*account));
    r
}

fn amount_call(selector: [u8; 4], account: &H160, amount: &U256) -> (r: Vec<u8>)
    ensures
        is_call2(r@, selector@, *account, crate::uint::u256_val(*amount)),
{
    let mut r = address_call(selector, account);
    let ghost head = r@;
    let word = u256_be_bytes(amount);
    let mut i: usize = 0;
    while i < 32
        invariant
            0 <= i <= 32,
            word@.len() == 32,
            r@ == head + word@.subrange(0, i as int),
        decreases 32 - i,
    {
        r.push(word[i]);
        assert(r@ =~= head + word@.subrange(0, i + 1));
        i = i + 1;
    }
    assert(word@.subrange(0, 32) =~= word@);
    assert(r@.subrange(0, 36) =~= head);
    assert(r@.subrange(36, 68) =~= word@);
    r
}

/// The nine calls of the probe of `token`: the balances of the holder
/// `take_from` and of the settlement contract, a transfer of `amount` from
/// the holder into the contract, the balances of the contract and of the
/// fresh `recipient`, a transfer of `amount` from the contract to the
/// recipient, the two balances again, and an approval of the largest amount
/// to the recipient by the contract.
pub fn create_trace_request(token: H160, amount: U256, take_from: H160, settlement_contract: H160, recipient: H160) -> (r: Vec<CallRequest>)
    ensures
        r@.len() == TRACE_COUNT,
        forall|i: int| 0 <= i < 9 ==> (#[trigger] r@[i]).to == token,
        r@[0].from is None && is_call1(r@[0].data@, balance_of_selector(), take_from),
        r@[1].from is None && is_call1(r@[1].data@, balance_of_selector(), settlement_contract),
        r@[2].from == Some(take_from) && is_call2(r@[2].data@, transfer_selector(), settlement_contract, crate::uint::u256_val(amount)),
        r@[3].from is None && is_call1(r@[3].data@, balance_of_selector(), settlement_contract),
        r@[4].from is None && is_call1(r@[4].data@, balance_of_selector(), recipient),
        r@[5].from == Some(settlement_contract) && is_call2(r@[5].data@, transfer_selector(), recipient, crate::uint::u256_val(amount)),
        r@[6].from is None && is_call1(r@[6].data@, balance_of_selector(), settlement_contract),
        r@[7].from is None && is_call1(r@[7].data@, balance_of_selector(), recipient),
        r@[8].from == Some(settlement_contract) && is_call2(r@[8].data@, approve_selector(), recipient, crate::uint::u256_max()),
{
    let balance_of: [u8; 4] = [0x70, 0xa0, 0x82, 0x31];
    let transfer: [u8; 4] = [0xa9, 0x05, 0x9c, 0xbb];
    let approve: [u8; 4] = [0x09, 0x5e, 0xa7, 0xb3];
    assert(balance_of@ =~= balance_of_selector());
    assert(transfer@ =~= transfer_selector());
    assert(approve@ =~= approve_selector());
    let mut r: Vec<CallRequest> = Vec::new();
    r.push(CallRequest { from: None, to: token, data: address_call(balance_of, &take_from) });
    r.push(CallRequest { from: None, to: token, data: address_call(balance_of, &settlement_contract) });
    r.push(CallRequest { from: Some(take_from), to: token, data: amount_call(transfer, &settlement_contract, &amount) });
    r.push(CallRequest { from: None, to: token, data: address_call(balance_of, &settlement_contract) });
    r.push(CallRequest { from: None, to: token, data: address_call(balance_of, &recipient) });
    r.push(CallRequest { from: Some(settlement_contract), to: token, data: amount_call(transfer, &recipient, &amount) });
    r.push(CallRequest { from: None, to: token, data: address_call(balance_of, &settlement_contract) });
    r.push(CallRequest { from: None, to: token, data: address_call(balance_of, &recipient) });
    let max = crate::uint::u256_max_value();
    r.push(CallRequest { from: Some(settlement_contract), to: token, data: amount_call(approve, &recipient, &max) });
    r
}

}
