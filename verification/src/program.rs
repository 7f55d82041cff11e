//! The decisions of the matcher program's instruction handler.
//!
//! The risk engine calls the matcher with two accounts: the LP PDA, which must
//! sign, and the matcher context account, which must be writable and at least
//! `CONTEXT_LEN` bytes long. The handler parses the call, prices it, and
//! writes the response to the first `RETURN_PREFIX_LEN` bytes of the context.
use crate::abi::{
    MatcherRequest, MatcherReturn, spec_engine_accepts, spec_parse_request, spec_parse_return,
    spec_return_bytes, lemma_return_roundtrip, CONTEXT_LEN, FLAG_REJECTED, RETURN_PREFIX_LEN,
};
use crate::amm::{
    price_trade, spec_price_rounds_to_zero, spec_price_trade, lemma_price_trade_meets_engine_checks,
};
use crate::error::MatcherError;
use vstd::prelude::*;

verus! {

/// What the handler reads of an account passed to it.
#[derive(Debug, Clone, Copy, PartialEq, Eq, Structural)]
pub struct AccountView {
    pub is_signer: bool,
    pub is_writable: bool,
}

/// The response that the handler writes for the accounts `accounts`, the
/// instruction data `instruction_data` and the context data `ctx`, or the
/// error it answers: too few accounts, an LP PDA that did not sign, a context
/// account that is not writable or is too small, a malformed call, or a
/// price that does not fit, in that order.
pub open spec fn spec_process_outcome(
    accounts: Seq<AccountView>,
    instruction_data: Seq<u8>,
    ctx: Seq<u8>,
) -> Result<MatcherReturn, MatcherError> {
    if accounts.len() < 1 {
        Err(MatcherError::NotEnoughAccountKeys)
    } else if !accounts[0].is_signer {
        Err(MatcherError::MissingRequiredSignature)
    } else if accounts.len() < 2 {
        Err(MatcherError::NotEnoughAccountKeys)
    } else if !accounts[1].is_writable {
        Err(MatcherError::InvalidAccountData)
    } else if ctx.len() < CONTEXT_LEN {
        Err(MatcherError::AccountDataTooSmall)
    } else {
        match spec_parse_request(instruction_data) {
            None => Err(MatcherError::InvalidInstructionData),
            Some(req) => spec_price_trade(req, ctx),
        }
    }
}

/// Handles a matcher call from the risk engine.
///
/// `accounts` are the accounts passed to the program: 0 is the LP PDA, which
/// must sign; 1 is the matcher context account, which must be writable, and
/// whose data is `ctx_data` (`ctx_data` is not read when there is no second
/// account). On success the response is written to the first
/// `RETURN_PREFIX_LEN` bytes of the context; on an error nothing changes.
pub fn process_instruction(
    accounts: &[AccountView],
    instruction_data: &[u8],
    ctx_data: &mut [u8],
) -> (r: Result<(), MatcherError>)
    ensures
        match spec_process_outcome(accounts@, instruction_data@, old(ctx_data)@) {
            Ok(resp) => {
                &&& r is Ok
                &&& final(ctx_data)@ == spec_return_bytes(resp) + old(ctx_data)@.subrange(
                    RETURN_PREFIX_LEN as int,
                    old(ctx_data)@.len() as int,
                )
            },
            Err(e) => r == Err::<(), MatcherError>(e) && final(ctx_data)@ == old(ctx_data)@,
        },
{
    // Account 0: the LP PDA, signed by the risk engine.
    if accounts.len() < 1 {
        return Err(MatcherError::NotEnoughAccountKeys);
    }
    if !accounts[0].is_signer {
        return Err(MatcherError::MissingRequiredSignature);
    }
    // Account 1: the matcher context, writable and large enough.
    if accounts.len() < 2 {
        return Err(MatcherError::NotEnoughAccountKeys);
    }
    if !accounts[1].is_writable {
        return Err(MatcherError::InvalidAccountData);
    }
    if ctx_data.len() < CONTEXT_LEN {
        return Err(MatcherError::AccountDataTooSmall);
    }

    let request = match MatcherRequest::from_bytes(instruction_data) {
        Some(request) => request,
        None => {
            return Err(MatcherError::InvalidInstructionData);
        },
    };

    let response = match price_trade(&request, ctx_data) {
        Ok(response) => response,
        Err(e) => {
            return Err(e);
        },
    };

    if !response.write_to(ctx_data) {
        return Err(MatcherError::AccountDataTooSmall);
    }
    Ok(())
}

/// After a successful call, the risk engine reads back from the context
/// account exactly the response that pricing gave. That response echoes the
/// call's request; it is a rejection exactly when the oracle price or the size
/// is zero or a short's price rounds down to zero, and otherwise it passes the
/// risk engine's checks.
pub proof fn lemma_process_reply_reads_back(
    accounts: Seq<AccountView>,
    instruction_data: Seq<u8>,
    ctx: Seq<u8>,
)
    ensures
        spec_process_outcome(accounts, instruction_data, ctx) matches Ok(resp) ==> {
            let req = spec_parse_request(instruction_data).unwrap();
            &&& spec_parse_return(
                spec_return_bytes(resp) + ctx.subrange(RETURN_PREFIX_LEN as int, ctx.len() as int),
            ) == Some(resp)
            &&& (resp.flags == FLAG_REJECTED <==> (req.oracle_price_e6 == 0 || req.req_size
                == 0 || spec_price_rounds_to_zero(req, ctx)))
            &&& resp.flags != FLAG_REJECTED ==> spec_engine_accepts(req, resp)
        },
{
    if let Ok(resp) = spec_process_outcome(accounts, instruction_data, ctx) {
        let req = spec_parse_request(instruction_data).unwrap();
        lemma_return_roundtrip(resp, ctx.subrange(RETURN_PREFIX_LEN as int, ctx.len() as int));
        lemma_price_trade_meets_engine_checks(req, ctx);
    }
}

/// Each error of the handler, in terms of its inputs: too few accounts when
/// there is no account, or a signed first account and no second one; a
/// missing signature when the first account did not sign; invalid account
/// data when the second account is not writable; a context too small exactly
/// when it has fewer than 320 bytes; an invalid call when the call does not
/// parse. With two good accounts, a context of 320 bytes or more, and a call
/// that parses, the handler answers whatever pricing answers.
pub proof fn lemma_process_outcome_cases(
    accounts: Seq<AccountView>,
    instruction_data: Seq<u8>,
    ctx: Seq<u8>,
)
    ensures
        ({
            let out = spec_process_outcome(accounts, instruction_data, ctx);
            let good_accounts = accounts.len() >= 2 && accounts[0].is_signer
                && accounts[1].is_writable;
            &&& out == Err::<MatcherReturn, MatcherError>(MatcherError::NotEnoughAccountKeys)
                <==> (accounts.len() == 0 || (accounts.len() == 1 && accounts[0].is_signer))
            &&& out == Err::<MatcherReturn, MatcherError>(MatcherError::MissingRequiredSignature)
                <==> (accounts.len() >= 1 && !accounts[0].is_signer)
            &&& out == Err::<MatcherReturn, MatcherError>(MatcherError::InvalidAccountData)
                <==> (accounts.len() >= 2 && accounts[0].is_signer && !accounts[1].is_writable)
            &&& out == Err::<MatcherReturn, MatcherError>(MatcherError::AccountDataTooSmall)
                <==> (good_accounts && ctx.len() < 320)
            &&& out == Err::<MatcherReturn, MatcherError>(MatcherError::InvalidInstructionData)
                <==> (good_accounts && ctx.len() >= 320 && spec_parse_request(instruction_data)
                is None)
            &&& (good_accounts && ctx.len() >= 320 && spec_parse_request(instruction_data)
                is Some) ==> out == spec_price_trade(
                spec_parse_request(instruction_data).unwrap(),
                ctx,
            )
        }),
{
    if accounts.len() >= 2 && accounts[0].is_signer && accounts[1].is_writable && ctx.len() >= 320 {
        if let Some(req) = spec_parse_request(instruction_data) {
            lemma_price_trade_meets_engine_checks(req, ctx);
        }
    }
}

} // verus!
