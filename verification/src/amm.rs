//! Reference AMM pricing engine: an oracle-anchored AMM with a spread.
//!
//! Longs pay `oracle * (1 + spread)`, shorts receive `oracle * (1 - spread)`,
//! with the spread in basis points. The LP configures the spread and the
//! largest share of a request to fill in the user-data region of the matcher
//! context account:
//!
//! ```text
//! [64..66]  spread_bps (u16)   — base spread in basis points (default 30 = 0.30%)
//! [66..68]  max_fill_pct (u16) — max share of a request to fill, in bps (default 10000 = 100%)
//! ```
use crate::abi::{
    MatcherRequest, MatcherReturn, abs128, lemma_flag_bits, spec_echoes, spec_engine_accepts,
    spec_response, FLAG_PARTIAL_OK, FLAG_REJECTED, FLAG_VALID, RETURN_PREFIX_LEN,
};
use crate::error::MatcherError;
use crate::le_bytes::{half_range128, le_field, le_value, read_u16_le};
use vstd::arithmetic::div_mod::{
    lemma_fundamental_div_mod, lemma_fundamental_div_mod_converse, lemma_mod_bound,
};
use vstd::prelude::*;

verus! {

/// Default spread: 30 basis points (0.30%).
pub const DEFAULT_SPREAD_BPS: u64 = 30;

/// Largest spread: 500 basis points (5.00%), so that a misconfigured LP
/// cannot quote absurd prices.
pub const MAX_SPREAD_BPS: u64 = 500;

/// Basis points denominator.
pub const BPS_DENOM: u64 = 10_000;

/// Offset of the LP configuration within the matcher context account.
pub const CONFIG_OFFSET: usize = RETURN_PREFIX_LEN;

/// LP configuration, read from the matcher context account's user data.
#[derive(Debug, Clone, Copy)]
pub struct LpConfig {
    /// Spread in basis points (0.01% per bps).
    pub spread_bps: u64,
    /// Largest share of a request to fill, in bps (10000 = 100%).
    pub max_fill_bps: u64,
}

/// The configuration used when the context holds none.
pub open spec fn spec_default_config() -> LpConfig {
    LpConfig { spread_bps: DEFAULT_SPREAD_BPS, max_fill_bps: BPS_DENOM }
}

/// The configuration that the context data `data` holds: a zero field means
/// the default, the spread is capped at `MAX_SPREAD_BPS` and the fill share at
/// 100%; data too short for the two fields gives the default configuration.
pub open spec fn spec_config_from_context(data: Seq<u8>) -> LpConfig {
    if data.len() < CONFIG_OFFSET + 4 {
        spec_default_config()
    } else {
        let spread_raw = le_field(data, CONFIG_OFFSET as int, 2);
        let max_fill_raw = le_field(data, CONFIG_OFFSET + 2, 2);
        LpConfig {
            spread_bps: if spread_raw == 0 {
                DEFAULT_SPREAD_BPS
            } else if spread_raw > MAX_SPREAD_BPS {
                MAX_SPREAD_BPS
            } else {
                spread_raw as u64
            },
            max_fill_bps: if max_fill_raw == 0 {
                BPS_DENOM
            } else if max_fill_raw < BPS_DENOM {
                max_fill_raw as u64
            } else {
                BPS_DENOM
            },
        }
    }
}

impl LpConfig {
    /// A configuration that the context can hold: a spread of 1 to
    /// `MAX_SPREAD_BPS` and a fill share of 1 bps to 100%.
    pub open spec fn wf(self) -> bool {
        &&& 1 <= self.spread_bps <= MAX_SPREAD_BPS
        &&& 1 <= self.max_fill_bps <= BPS_DENOM
    }

    /// Reads the LP configuration from the matcher context account's data.
    /// Falls back to the defaults where the data holds zeros or is too short.
    pub fn from_context(data: &[u8]) -> (r: Self)
        ensures
            r == spec_config_from_context(data@),
            r.wf(),
    {
        if data.len() < CONFIG_OFFSET + 4 {
            return Self::default();
        }
        let spread_raw = read_u16_le(data, CONFIG_OFFSET) as u64;
        let max_fill_raw = read_u16_le(data, CONFIG_OFFSET + 2) as u64;

        // Zero means "use the default".
        let spread_bps = if spread_raw == 0 {
            DEFAULT_SPREAD_BPS
        } else if spread_raw > MAX_SPREAD_BPS {
            MAX_SPREAD_BPS
        } else {
            spread_raw
        };
        let max_fill_bps = if max_fill_raw == 0 {
            BPS_DENOM
        } else if max_fill_raw < BPS_DENOM {
            max_fill_raw
        } else {
            BPS_DENOM
        };
        Self { spread_bps, max_fill_bps }
    }
}

impl Default for LpConfig {
    fn default() -> (r: Self)
        ensures
            r == spec_default_config(),
            r.spread_bps == 30,
            r.max_fill_bps == 10000,
    {
        Self { spread_bps: DEFAULT_SPREAD_BPS, max_fill_bps: BPS_DENOM }
    }
}

/// The spread-adjusted execution price: a long pays
/// `oracle * (BPS_DENOM + spread) / BPS_DENOM`, a short receives
/// `oracle * (BPS_DENOM - spread) / BPS_DENOM` (the factor floored at zero),
/// both rounded down; `None` when the product does not fit in a `u64`.
pub open spec fn spec_exec_price(oracle: u64, is_long: bool, spread_bps: u64) -> Option<u64> {
    let factor: int = if is_long {
        BPS_DENOM + spread_bps
    } else if spread_bps <= BPS_DENOM {
        BPS_DENOM - spread_bps
    } else {
        0
    };
    if oracle * factor <= u64::MAX {
        Some(((oracle * factor) / (BPS_DENOM as int)) as u64)
    } else {
        None
    }
}

/// The amount to fill of a request of size `req_size`: all of it when the fill
/// share is 100%, else `|req_size| * max_fill_bps / BPS_DENOM` rounded down.
pub open spec fn spec_fill_amount(req_size: i128, max_fill_bps: u64) -> nat {
    let a = abs128(req_size);
    if max_fill_bps >= BPS_DENOM {
        a
    } else {
        (a * max_fill_bps / (BPS_DENOM as int)) as nat
    }
}

/// The filled size: the request itself at a 100% fill share, else the fill
/// amount with the request's sign.
pub open spec fn spec_fill_size(req_size: i128, max_fill_bps: u64) -> int {
    if max_fill_bps >= BPS_DENOM {
        req_size as int
    } else if req_size > 0 {
        spec_fill_amount(req_size, max_fill_bps) as int
    } else {
        -spec_fill_amount(req_size, max_fill_bps)
    }
}

/// The inputs on which a short's execution price rounds down to zero: the
/// oracle price is so small that `oracle * (BPS_DENOM - spread)` is below
/// `BPS_DENOM`. The risk engine takes no fill at a zero price, so the matcher
/// rejects these.
pub open spec fn spec_price_rounds_to_zero(req: MatcherRequest, data: Seq<u8>) -> bool {
    &&& req.req_size < 0
    &&& 0 < req.oracle_price_e6
    &&& req.oracle_price_e6 * (BPS_DENOM - spec_config_from_context(data).spread_bps) < BPS_DENOM
}

/// What pricing `req` against the context data `data` answers: a rejection for
/// a zero oracle price, a zero size or a price that rounds down to zero,
/// `ArithmeticOverflow` when the price does not fit, else an acceptance of a
/// full fill or a partial response.
pub open spec fn spec_price_trade(req: MatcherRequest, data: Seq<u8>) -> Result<
    MatcherReturn,
    MatcherError,
> {
    let config = spec_config_from_context(data);
    if req.oracle_price_e6 == 0 || req.req_size == 0 {
        Ok(spec_response(req, FLAG_REJECTED, 0, 0))
    } else {
        match spec_exec_price(req.oracle_price_e6, req.req_size > 0, config.spread_bps) {
            None => Err(MatcherError::ArithmeticOverflow),
            Some(price) => {
                if price == 0 {
                    Ok(spec_response(req, FLAG_REJECTED, 0, 0))
                } else {
                    let size = spec_fill_size(req.req_size, config.max_fill_bps) as i128;
                    if size == req.req_size {
                        Ok(spec_response(req, FLAG_VALID, price, size))
                    } else {
                        Ok(spec_response(req, FLAG_VALID | FLAG_PARTIAL_OK, price, size))
                    }
                }
            },
        }
    }
}

/// `|v|` as an unsigned number.
fn unsigned_abs128(v: i128) -> (r: u128)
    ensures
        r as nat == abs128(v),
{
    if v >= 0 {
        v as u128
    } else if v == i128::MIN {
        0x8000_0000_0000_0000_0000_0000_0000_0000u128
    } else {
        (-v) as u128
    }
}

/// The fill amount never exceeds the request, and a share below 100% fills
/// strictly less than a non-zero request.
proof fn lemma_fill_amount_bound(req_size: i128, max_fill_bps: u64)
    ensures
        spec_fill_amount(req_size, max_fill_bps) <= abs128(req_size),
        max_fill_bps < BPS_DENOM && abs128(req_size) > 0 ==> spec_fill_amount(
            req_size,
            max_fill_bps,
        ) < abs128(req_size),
        abs128(req_size) <= half_range128(),
{
    let a = abs128(req_size) as int;
    let m = max_fill_bps as int;
    if m < BPS_DENOM {
        let x = a * m;
        assert(x <= a * 10000 - a) by (nonlinear_arith)
            requires
                x == a * m,
                0 <= m < 10000,
                a >= 0,
        ;
        lemma_fundamental_div_mod(x, 10000);
        lemma_mod_bound(x, 10000);
    }
}

/// `|req_size| * max_fill_bps / BPS_DENOM`, rounded down, for a share below
/// 100%, computed without overflow as
/// `(|req_size| / BPS_DENOM) * m + (|req_size| % BPS_DENOM) * m / BPS_DENOM`.
fn fill_amount(abs_size: u128, max_fill_bps: u64) -> (filled: u128)
    requires
        abs_size <= half_range128(),
        max_fill_bps < BPS_DENOM,
    ensures
        filled as int == abs_size * max_fill_bps / (BPS_DENOM as int),
{
    let m = max_fill_bps as u128;
    let q = abs_size / 10_000;
    let r = abs_size % 10_000;
    proof {
        let a = abs_size as int;
        let mi = m as int;
        let qi = q as int;
        let ri = r as int;
        lemma_fundamental_div_mod(a, 10000);
        lemma_mod_bound(a, 10000);
        assert(qi * mi <= a) by (nonlinear_arith)
            requires
                a == 10000 * qi + ri,
                0 <= ri,
                0 <= qi,
                0 <= mi < 10000,
        ;
        assert(ri * mi < 100_000_000) by (nonlinear_arith)
            requires
                0 <= ri < 10000,
                0 <= mi < 10000,
        ;
        let t = ri * mi;
        lemma_fundamental_div_mod(t, 10000);
        lemma_mod_bound(t, 10000);
        assert(a * mi == 10000 * (qi * mi + t / 10000) + t % 10000) by (nonlinear_arith)
            requires
                a == 10000 * qi + ri,
                t == ri * mi,
                t == 10000 * (t / 10000) + t % 10000,
        ;
        lemma_fundamental_div_mod_converse(a * mi, 10000, qi * mi + t / 10000, t % 10000);
    }
    q * m + r * m / 10_000
}

/// Prices a trade against the LP configuration held in the matcher context
/// data and produces the matcher's response.
pub fn price_trade(request: &MatcherRequest, ctx_data: &[u8]) -> (r: Result<
    MatcherReturn,
    MatcherError,
>)
    ensures
        r == spec_price_trade(*request, ctx_data@),
{
    let config = LpConfig::from_context(ctx_data);
    let oracle = request.oracle_price_e6;

    // Reject a zero oracle price (the risk engine checks, but be safe).
    if oracle == 0 {
        return Ok(MatcherReturn::reject(request));
    }
    // Reject a zero request size.
    if request.req_size == 0 {
        return Ok(MatcherReturn::reject(request));
    }

    // Longs pay oracle + spread, shorts receive oracle - spread, so that the
    // LP always captures the spread.
    let factor = if request.req_size > 0 {
        BPS_DENOM + config.spread_bps
    } else {
        BPS_DENOM.saturating_sub(config.spread_bps)
    };
    let quotient = match oracle.checked_mul(factor) {
        Some(v) => v.checked_div(BPS_DENOM),
        None => None,
    };
    let exec_price_e6 = match quotient {
        Some(p) => p,
        None => {
            return Err(MatcherError::ArithmeticOverflow);
        },
    };
    // The risk engine takes no fill at a zero price: reject a short whose
    // price rounds down to zero.
    if exec_price_e6 == 0 {
        return Ok(MatcherReturn::reject(request));
    }

    // Apply the largest fill share.
    proof {
        lemma_fill_amount_bound(request.req_size, config.max_fill_bps);
    }
    let exec_size = if config.max_fill_bps >= BPS_DENOM {
        request.req_size
    } else {
        let filled = fill_amount(unsigned_abs128(request.req_size), config.max_fill_bps);
        // Keep the request's sign.
        if request.req_size > 0 {
            filled as i128
        } else {
            -(filled as i128)
        }
    };

    if exec_size == request.req_size {
        Ok(MatcherReturn::accept(request, exec_price_e6, exec_size))
    } else {
        Ok(MatcherReturn::partial(request, exec_price_e6, exec_size))
    }
}

// ── Laws of the pricing engine ───────────────────────────────────────────────
/// The LP always captures the spread, and the price stays within the spread
/// of the oracle price: a long pays at least the oracle price and at most
/// `spread_bps` basis points more; a short receives at most the oracle price
/// and less than `spread_bps` basis points (plus the rounding unit) less.
pub proof fn lemma_price_within_spread(oracle: u64, is_long: bool, spread_bps: u64)
    ensures
        spec_exec_price(oracle, is_long, spread_bps) matches Some(p) ==> {
            &&& is_long ==> oracle <= p && (p - oracle) * BPS_DENOM <= oracle * spread_bps
            &&& !is_long ==> p <= oracle && (oracle - p) * BPS_DENOM < oracle * spread_bps
                + BPS_DENOM
        },
{
    let o = oracle as int;
    let s = spread_bps as int;
    if let Some(p) = spec_exec_price(oracle, is_long, spread_bps) {
        assert(o * s >= 0) by (nonlinear_arith)
            requires
                o >= 0,
                s >= 0,
        ;
        if is_long {
            let x = o * (10000 + s);
            assert(x == o * 10000 + o * s) by (nonlinear_arith)
                requires
                    x == o * (10000 + s),
            ;
            lemma_fundamental_div_mod(x, 10000);
            lemma_mod_bound(x, 10000);
        } else if s <= 10000 {
            let x = o * (10000 - s);
            assert(x == o * 10000 - o * s) by (nonlinear_arith)
                requires
                    x == o * (10000 - s),
            ;
            lemma_fundamental_div_mod(x, 10000);
            lemma_mod_bound(x, 10000);
        } else {
            assert(o * 10000 <= o * s) by (nonlinear_arith)
                requires
                    o >= 0,
                    s > 10000,
            ;
            assert(o * 0 == 0);
        }
    }
}

/// The fill is `|req_size| * max_fill_bps / BPS_DENOM` rounded down, with the
/// request's sign, for every request: it never exceeds the request or the
/// configured share of it, is on the request's side unless it is zero, and is
/// the whole request at a 100% fill share.
pub proof fn lemma_fill_within_request(req_size: i128, max_fill_bps: u64)
    ensures
        ({
            let f = spec_fill_size(req_size, max_fill_bps);
            let af = if f < 0 { -f } else { f };
            &&& af <= abs128(req_size)
            &&& max_fill_bps <= BPS_DENOM ==> af == abs128(req_size) * max_fill_bps / (
            BPS_DENOM as int)
            &&& f != 0 ==> (f > 0) == (req_size > 0)
            &&& max_fill_bps >= BPS_DENOM ==> f == req_size
        }),
{
    lemma_fill_amount_bound(req_size, max_fill_bps);
    if max_fill_bps == BPS_DENOM {
        let a = abs128(req_size) as int;
        assert(a * 10000 / 10000 == a) by (nonlinear_arith);
    }
}

/// Every response that pricing gives echoes the request. It is a rejection,
/// with no price and no fill, exactly when the oracle price or the size is
/// zero or a short's price rounds down to zero; it is an acceptance of the
/// whole request exactly when it is flagged `FLAG_VALID` alone; and the risk
/// engine accepts every response that is not a rejection, so that in
/// particular every response flagged valid has a non-zero price. Pricing fails
/// only when the price does not fit in a `u64`.
pub proof fn lemma_price_trade_meets_engine_checks(req: MatcherRequest, data: Seq<u8>)
    ensures
        spec_price_trade(req, data) is Err <==> (req.oracle_price_e6 != 0 && req.req_size != 0
            && spec_exec_price(
            req.oracle_price_e6,
            req.req_size > 0,
            spec_config_from_context(data).spread_bps,
        ) is None),
        spec_price_trade(req, data) matches Ok(ret) ==> {
            &&& spec_echoes(req, ret)
            &&& (ret.flags == FLAG_REJECTED <==> (req.oracle_price_e6 == 0 || req.req_size == 0
                || spec_price_rounds_to_zero(req, data)))
            &&& ret.flags == FLAG_REJECTED ==> ret.exec_price_e6 == 0 && ret.exec_size == 0
                && !spec_engine_accepts(req, ret)
            &&& ret.flags != FLAG_REJECTED ==> spec_engine_accepts(req, ret)
            &&& ret.flags & FLAG_VALID != 0 ==> ret.exec_price_e6 != 0
            &&& (ret.flags == FLAG_VALID <==> ret.flags != FLAG_REJECTED && ret.exec_size
                == req.req_size)
        },
{
    lemma_flag_bits();
    let config = spec_config_from_context(data);
    assert(FLAG_REJECTED & FLAG_VALID == 0);
    if req.oracle_price_e6 != 0 && req.req_size != 0 {
        lemma_price_within_spread(req.oracle_price_e6, req.req_size > 0, config.spread_bps);
        lemma_fill_within_request(req.req_size, config.max_fill_bps);
        lemma_fill_amount_bound(req.req_size, config.max_fill_bps);
        if req.req_size < 0 {
            let o = req.oracle_price_e6 as int;
            let f = BPS_DENOM - config.spread_bps;
            lemma_fundamental_div_mod(o * f, 10000);
            lemma_mod_bound(o * f, 10000);
        }
    }
}

/// The pricing constants have their documented values.
pub proof fn lemma_pricing_constants()
    ensures
        DEFAULT_SPREAD_BPS == 30,
        MAX_SPREAD_BPS == 500,
        BPS_DENOM == 10000,
        CONFIG_OFFSET == 64,
{
}

/// The configuration is read from the two little-endian `u16`s at bytes 64
/// and 66: a raw spread of 0 gives 30 bps, 1 to 500 is taken as is and more is
/// capped at 500; a raw fill share of 0, or of 10000 or more, gives 10000 bps,
/// and 1 to 9999 is taken as is. Fewer than 68 bytes give 30 and 10000.
pub proof fn lemma_config_from_bytes(data: Seq<u8>)
    ensures
        data.len() < 68 ==> spec_config_from_context(data).spread_bps == 30
            && spec_config_from_context(data).max_fill_bps == 10000,
        data.len() >= 68 ==> ({
            let c = spec_config_from_context(data);
            let s = le_value(data.subrange(64, 66));
            let m = le_value(data.subrange(66, 68));
            &&& s == 0 ==> c.spread_bps == 30
            &&& 1 <= s <= 500 ==> c.spread_bps == s
            &&& s > 500 ==> c.spread_bps == 500
            &&& (m == 0 || m >= 10000) ==> c.max_fill_bps == 10000
            &&& 1 <= m < 10000 ==> c.max_fill_bps == m
        }),
{
}

/// Pricing in plain arithmetic. With `f = 10000 + spread` for a long and
/// `10000 - spread` for a short, and `m` the fill share: a zero oracle price
/// or size is rejected; otherwise pricing fails, with `ArithmeticOverflow`,
/// exactly when `oracle * f` exceeds `u64::MAX`. When it fits, a price
/// `oracle * f / 10000` of zero is rejected, and any other is the execution
/// price, with a fill of `|size| * m / 10000` on the request's side, flagged
/// valid alone (1) when that is the whole request and valid and partial (3)
/// otherwise.
pub proof fn lemma_price_trade_arithmetic(req: MatcherRequest, data: Seq<u8>)
    ensures
        ({
            let c = spec_config_from_context(data);
            let o = req.oracle_price_e6 as int;
            let size = req.req_size;
            let f: int = if size > 0 {
                10000 + c.spread_bps
            } else {
                10000 - c.spread_bps
            };
            let m = c.max_fill_bps as int;
            let res = spec_price_trade(req, data);
            &&& 1 <= c.spread_bps <= 500
            &&& 1 <= m <= 10000
            &&& res matches Ok(ret) ==> {
                &&& ret.abi_version == 1
                &&& ret.req_id == req.req_id
                &&& ret.lp_account_id == req.lp_account_id
                &&& ret.oracle_price_e6 == req.oracle_price_e6
                &&& ret.reserved == 0
            }
            &&& (o == 0 || size == 0) ==> (res matches Ok(ret) && ret.flags == 4
                && ret.exec_price_e6 == 0 && ret.exec_size == 0)
            &&& (o != 0 && size != 0) ==> (res is Err <==> o * f > 0xFFFF_FFFF_FFFF_FFFF)
            &&& res is Err ==> res == Err::<MatcherReturn, MatcherError>(
                MatcherError::ArithmeticOverflow,
            )
            &&& (o != 0 && size != 0 && o * f <= 0xFFFF_FFFF_FFFF_FFFF && o * f / 10000 == 0)
                ==> (res matches Ok(ret) && ret.flags == 4 && ret.exec_price_e6 == 0
                && ret.exec_size == 0)
            &&& (o != 0 && size != 0 && o * f <= 0xFFFF_FFFF_FFFF_FFFF && o * f / 10000 > 0)
                ==> (res matches Ok(ret) && {
                &&& ret.exec_price_e6 == o * f / 10000
                &&& abs128(ret.exec_size) == abs128(size) * m / 10000
                &&& ret.exec_size == 0 || (ret.exec_size > 0) == (size > 0)
                &&& ret.flags == 1 <==> ret.exec_size == size
                &&& ret.flags == 1 || ret.flags == 3
            })
        }),
{
    lemma_flag_bits();
    let c = spec_config_from_context(data);
    lemma_fill_within_request(req.req_size, c.max_fill_bps);
    lemma_fill_amount_bound(req.req_size, c.max_fill_bps);
}

} // verus!
