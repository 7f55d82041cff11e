//! The CPI wire format shared by the risk engine and matcher programs.
//!
//! Call (67 bytes of instruction data): tag `0x00`, `req_id` (u64), `lp_idx`
//! (u16), `lp_account_id` (u64), `oracle_price_e6` (u64), `req_size` (i128),
//! then 24 bytes that must be zero. Return (the first 64 bytes of the matcher
//! context account): `abi_version` (u32), `flags` (u32), `exec_price_e6` (u64),
//! `exec_size` (i128), then the echoed `req_id`, `lp_account_id`,
//! `oracle_price_e6` and a zero `reserved` word (u64 each). All integers are
//! little-endian; signed ones are in two's complement.
use crate::le_bytes::{
    le_bytes, le_field, lemma_le_bytes_len, lemma_splice_after_prefix, read_i128_le, read_u16_le,
    read_u32_le, read_u64_le, twos128, from_twos128, write_i128_le, write_u32_le, write_u64_le,
    lemma_le_value_of_bytes, lemma_le_bytes_of_value, lemma_le_value_bound, lemma_pow256_values,
    lemma_twos128_roundtrip, lemma_from_twos128_roundtrip, le_value,
};
use vstd::prelude::*;

verus! {

// ── Constants ────────────────────────────────────────────────────────────────
/// Current ABI version. The risk engine rejects mismatches.
pub const ABI_VERSION: u32 = 1;

/// Matcher call tag byte (instruction data byte 0).
pub const CALL_TAG: u8 = 0;

/// Total length of a matcher call's instruction data.
pub const CALL_LEN: usize = 67;

/// Length of the return data prefix of the matcher context account.
pub const RETURN_PREFIX_LEN: usize = 64;

/// Required minimum length of the matcher context account.
pub const CONTEXT_LEN: usize = 320;

// ── Call offsets ─────────────────────────────────────────────────────────────
pub const CALL_OFF_TAG: usize = 0;

pub const CALL_OFF_REQ_ID: usize = 1;

pub const CALL_OFF_LP_IDX: usize = 9;

pub const CALL_OFF_LP_ACCOUNT_ID: usize = 11;

pub const CALL_OFF_ORACLE_PRICE: usize = 19;

pub const CALL_OFF_REQ_SIZE: usize = 27;

pub const CALL_OFF_PADDING: usize = 43;

// ── Return offsets ───────────────────────────────────────────────────────────
pub const RET_OFF_ABI_VERSION: usize = 0;

pub const RET_OFF_FLAGS: usize = 4;

pub const RET_OFF_EXEC_PRICE: usize = 8;

pub const RET_OFF_EXEC_SIZE: usize = 16;

pub const RET_OFF_REQ_ID: usize = 32;

pub const RET_OFF_LP_ACCOUNT_ID: usize = 40;

pub const RET_OFF_ORACLE_PRICE: usize = 48;

pub const RET_OFF_RESERVED: usize = 56;

// ── Flags ────────────────────────────────────────────────────────────────────
/// Bit 0: the response is valid (must be set for acceptance).
pub const FLAG_VALID: u32 = 1;

/// Bit 1: a partial fill (including a zero fill) is allowed.
pub const FLAG_PARTIAL_OK: u32 = 2;

/// Bit 2: the trade was rejected by the matcher.
pub const FLAG_REJECTED: u32 = 4;

// ── Request ──────────────────────────────────────────────────────────────────
/// Decoded matcher call request, parsed from CPI instruction data.
#[derive(Debug, Clone, Copy, PartialEq, Eq, Structural)]
pub struct MatcherRequest {
    pub req_id: u64,
    pub lp_idx: u16,
    pub lp_account_id: u64,
    pub oracle_price_e6: u64,
    pub req_size: i128,
}

/// The request that the bytes `s` hold, if they form a well-formed call:
/// at least `CALL_LEN` bytes, the call tag first, and zero padding.
pub open spec fn spec_parse_request(s: Seq<u8>) -> Option<MatcherRequest> {
    if s.len() < CALL_LEN || s[CALL_OFF_TAG as int] != CALL_TAG || exists|i: int|
        CALL_OFF_PADDING <= i < CALL_LEN && #[trigger] s[i] != 0 {
        None
    } else {
        Some(
            MatcherRequest {
                req_id: le_field(s, CALL_OFF_REQ_ID as int, 8) as u64,
                lp_idx: le_field(s, CALL_OFF_LP_IDX as int, 2) as u16,
                lp_account_id: le_field(s, CALL_OFF_LP_ACCOUNT_ID as int, 8) as u64,
                oracle_price_e6: le_field(s, CALL_OFF_ORACLE_PRICE as int, 8) as u64,
                req_size: from_twos128(le_field(s, CALL_OFF_REQ_SIZE as int, 16)),
            },
        )
    }
}

/// The `CALL_LEN` bytes of the call that carries `req`.
pub open spec fn spec_request_bytes(req: MatcherRequest) -> Seq<u8> {
    seq![CALL_TAG] + le_bytes(req.req_id as nat, 8) + le_bytes(req.lp_idx as nat, 2) + le_bytes(
        req.lp_account_id as nat,
        8,
    ) + le_bytes(req.oracle_price_e6 as nat, 8) + le_bytes(twos128(req.req_size), 16) + Seq::new(
        24,
        |i: int| 0u8,
    )
}

impl MatcherRequest {
    /// Parses a matcher call from raw instruction data.
    ///
    /// Returns `None` if the data is too short, the tag byte is wrong, or the
    /// padding is not zero.
    pub fn from_bytes(data: &[u8]) -> (r: Option<Self>)
        ensures
            r == spec_parse_request(data@),
    {
        if data.len() < CALL_LEN {
            return None;
        }
        if data[CALL_OFF_TAG] != CALL_TAG {
            return None;
        }
        let req_id = read_u64_le(data, CALL_OFF_REQ_ID);
        let lp_idx = read_u16_le(data, CALL_OFF_LP_IDX);
        let lp_account_id = read_u64_le(data, CALL_OFF_LP_ACCOUNT_ID);
        let oracle_price_e6 = read_u64_le(data, CALL_OFF_ORACLE_PRICE);
        let req_size = read_i128_le(data, CALL_OFF_REQ_SIZE);

        let mut i: usize = CALL_OFF_PADDING;
        while i < CALL_LEN
            invariant
                CALL_OFF_PADDING <= i <= CALL_LEN <= data@.len(),
                forall|j: int| CALL_OFF_PADDING <= j < i ==> data@[j] == 0,
            decreases CALL_LEN - i,
        {
            if data[i] != 0 {
                return None;
            }
            i = i + 1;
        }
        Some(Self { req_id, lp_idx, lp_account_id, oracle_price_e6, req_size })
    }
}

// ── Response ─────────────────────────────────────────────────────────────────
/// Matcher return response, written to the matcher context account.
#[derive(Debug, Clone, Copy, PartialEq, Eq, Structural)]
pub struct MatcherReturn {
    pub abi_version: u32,
    pub flags: u32,
    pub exec_price_e6: u64,
    pub exec_size: i128,
    pub req_id: u64,
    pub lp_account_id: u64,
    pub oracle_price_e6: u64,
    pub reserved: u64,
}

/// The response held by the first `RETURN_PREFIX_LEN` bytes of `s`; every
/// prefix of that length holds one.
pub open spec fn spec_parse_return(s: Seq<u8>) -> Option<MatcherReturn> {
    if s.len() < RETURN_PREFIX_LEN {
        None
    } else {
        Some(
            MatcherReturn {
                abi_version: le_field(s, RET_OFF_ABI_VERSION as int, 4) as u32,
                flags: le_field(s, RET_OFF_FLAGS as int, 4) as u32,
                exec_price_e6: le_field(s, RET_OFF_EXEC_PRICE as int, 8) as u64,
                exec_size: from_twos128(le_field(s, RET_OFF_EXEC_SIZE as int, 16)),
                req_id: le_field(s, RET_OFF_REQ_ID as int, 8) as u64,
                lp_account_id: le_field(s, RET_OFF_LP_ACCOUNT_ID as int, 8) as u64,
                oracle_price_e6: le_field(s, RET_OFF_ORACLE_PRICE as int, 8) as u64,
                reserved: le_field(s, RET_OFF_RESERVED as int, 8) as u64,
            },
        )
    }
}

/// The `RETURN_PREFIX_LEN` bytes that encode `r`.
pub open spec fn spec_return_bytes(r: MatcherReturn) -> Seq<u8> {
    le_bytes(r.abi_version as nat, 4) + le_bytes(r.flags as nat, 4) + le_bytes(
        r.exec_price_e6 as nat,
        8,
    ) + le_bytes(twos128(r.exec_size), 16) + le_bytes(r.req_id as nat, 8) + le_bytes(
        r.lp_account_id as nat,
        8,
    ) + le_bytes(r.oracle_price_e6 as nat, 8) + le_bytes(r.reserved as nat, 8)
}

/// The response that echoes `req` with the given flags, price and size.
pub open spec fn spec_response(
    req: MatcherRequest,
    flags: u32,
    exec_price_e6: u64,
    exec_size: i128,
) -> MatcherReturn {
    MatcherReturn {
        abi_version: ABI_VERSION,
        flags,
        exec_price_e6,
        exec_size,
        req_id: req.req_id,
        lp_account_id: req.lp_account_id,
        oracle_price_e6: req.oracle_price_e6,
        reserved: 0,
    }
}

/// `|v|`.
pub open spec fn abs128(v: i128) -> nat {
    if v < 0 {
        (-v) as nat
    } else {
        v as nat
    }
}

/// `ret` echoes `req`: current ABI version, the request's id, LP account id
/// and oracle price, and a zero reserved word.
pub open spec fn spec_echoes(req: MatcherRequest, ret: MatcherReturn) -> bool {
    &&& ret.abi_version == ABI_VERSION
    &&& ret.req_id == req.req_id
    &&& ret.lp_account_id == req.lp_account_id
    &&& ret.oracle_price_e6 == req.oracle_price_e6
    &&& ret.reserved == 0
}

/// The checks that the risk engine makes before it applies `ret` as the fill
/// of `req`: the response echoes the request, is flagged valid and not
/// rejected, has a non-zero price, fills no more than was requested and on
/// the same side, and fills zero only where partial fills are allowed.
pub open spec fn spec_engine_accepts(req: MatcherRequest, ret: MatcherReturn) -> bool {
    &&& spec_echoes(req, ret)
    &&& ret.flags & FLAG_VALID != 0
    &&& ret.flags & FLAG_REJECTED == 0
    &&& ret.exec_price_e6 != 0
    &&& abs128(ret.exec_size) <= abs128(req.req_size)
    &&& ret.exec_size != 0 ==> (ret.exec_size > 0) == (req.req_size > 0)
    &&& ret.exec_size == 0 ==> ret.flags & FLAG_PARTIAL_OK != 0
}

/// The flag words that responses carry, bit by bit.
pub proof fn lemma_flag_bits()
    ensures
        FLAG_VALID | FLAG_PARTIAL_OK == 3,
        FLAG_VALID & FLAG_VALID != 0,
        FLAG_VALID & FLAG_REJECTED == 0,
        (FLAG_VALID | FLAG_PARTIAL_OK) & FLAG_VALID != 0,
        (FLAG_VALID | FLAG_PARTIAL_OK) & FLAG_PARTIAL_OK != 0,
        (FLAG_VALID | FLAG_PARTIAL_OK) & FLAG_REJECTED == 0,
        FLAG_REJECTED & FLAG_VALID == 0,
{
    assert(1u32 | 2u32 == 3u32) by (bit_vector);
    assert(1u32 & 1u32 != 0u32) by (bit_vector);
    assert(1u32 & 4u32 == 0u32) by (bit_vector);
    assert(3u32 & 1u32 != 0u32) by (bit_vector);
    assert(3u32 & 2u32 != 0u32) by (bit_vector);
    assert(3u32 & 4u32 == 0u32) by (bit_vector);
    assert(4u32 & 1u32 == 0u32) by (bit_vector);
}

impl MatcherReturn {
    /// Reads a matcher return from the first 64 bytes of an account's data.
    pub fn from_bytes(data: &[u8]) -> (r: Option<Self>)
        ensures
            r == spec_parse_return(data@),
    {
        if data.len() < RETURN_PREFIX_LEN {
            return None;
        }
        Some(
            Self {
                abi_version: read_u32_le(data, RET_OFF_ABI_VERSION),
                flags: read_u32_le(data, RET_OFF_FLAGS),
                exec_price_e6: read_u64_le(data, RET_OFF_EXEC_PRICE),
                exec_size: read_i128_le(data, RET_OFF_EXEC_SIZE),
                req_id: read_u64_le(data, RET_OFF_REQ_ID),
                lp_account_id: read_u64_le(data, RET_OFF_LP_ACCOUNT_ID),
                oracle_price_e6: read_u64_le(data, RET_OFF_ORACLE_PRICE),
                reserved: read_u64_le(data, RET_OFF_RESERVED),
            },
        )
    }

    /// Serializes this return into the first 64 bytes of `buf`, leaving the
    /// rest of `buf` as it was.
    ///
    /// Returns `false`, and changes nothing, if the buffer is too small.
    pub fn write_to(&self, buf: &mut [u8]) -> (ok: bool)
        ensures
            ok == (old(buf)@.len() >= RETURN_PREFIX_LEN),
            ok ==> final(buf)@ == spec_return_bytes(*self) + old(buf)@.subrange(
                RETURN_PREFIX_LEN as int,
                old(buf)@.len() as int,
            ),
            !ok ==> final(buf)@ == old(buf)@,
    {
        if buf.len() < RETURN_PREFIX_LEN {
            return false;
        }
        broadcast use lemma_le_bytes_len;

        let ghost orig = buf@;
        let ghost len = orig.len() as int;
        let ghost e0 = le_bytes(self.abi_version as nat, 4);
        let ghost e1 = le_bytes(self.flags as nat, 4);
        let ghost e2 = le_bytes(self.exec_price_e6 as nat, 8);
        let ghost e3 = le_bytes(twos128(self.exec_size), 16);
        let ghost e4 = le_bytes(self.req_id as nat, 8);
        let ghost e5 = le_bytes(self.lp_account_id as nat, 8);
        let ghost e6 = le_bytes(self.oracle_price_e6 as nat, 8);
        let ghost e7 = le_bytes(self.reserved as nat, 8);

        write_u32_le(buf, RET_OFF_ABI_VERSION, self.abi_version);
        proof {
            assert(orig =~= Seq::<u8>::empty() + orig.subrange(0, len));
            lemma_splice_after_prefix(Seq::empty(), orig.subrange(0, len), e0);
            assert(orig.subrange(0, len).subrange(4, len) =~= orig.subrange(4, len));
            assert(Seq::<u8>::empty() + e0 =~= e0);
        }
        assert(buf@ == e0 + orig.subrange(4, len));

        write_u32_le(buf, RET_OFF_FLAGS, self.flags);
        proof {
            lemma_splice_after_prefix(e0, orig.subrange(4, len), e1);
            assert(orig.subrange(4, len).subrange(4, len - 4) =~= orig.subrange(8, len));
        }
        assert(buf@ == e0 + e1 + orig.subrange(8, len));

        write_u64_le(buf, RET_OFF_EXEC_PRICE, self.exec_price_e6);
        proof {
            lemma_splice_after_prefix(e0 + e1, orig.subrange(8, len), e2);
            assert(orig.subrange(8, len).subrange(8, len - 8) =~= orig.subrange(16, len));
        }
        assert(buf@ == e0 + e1 + e2 + orig.subrange(16, len));

        write_i128_le(buf, RET_OFF_EXEC_SIZE, self.exec_size);
        proof {
            lemma_splice_after_prefix(e0 + e1 + e2, orig.subrange(16, len), e3);
            assert(orig.subrange(16, len).subrange(16, len - 16) =~= orig.subrange(32, len));
        }
        assert(buf@ == e0 + e1 + e2 + e3 + orig.subrange(32, len));

        write_u64_le(buf, RET_OFF_REQ_ID, self.req_id);
        proof {
            lemma_splice_after_prefix(e0 + e1 + e2 + e3, orig.subrange(32, len), e4);
            assert(orig.subrange(32, len).subrange(8, len - 32) =~= orig.subrange(40, len));
        }
        assert(buf@ == e0 + e1 + e2 + e3 + e4 + orig.subrange(40, len));

        write_u64_le(buf, RET_OFF_LP_ACCOUNT_ID, self.lp_account_id);
        proof {
            lemma_splice_after_prefix(e0 + e1 + e2 + e3 + e4, orig.subrange(40, len), e5);
            assert(orig.subrange(40, len).subrange(8, len - 40) =~= orig.subrange(48, len));
        }
        assert(buf@ == e0 + e1 + e2 + e3 + e4 + e5 + orig.subrange(48, len));

        write_u64_le(buf, RET_OFF_ORACLE_PRICE, self.oracle_price_e6);
        proof {
            lemma_splice_after_prefix(e0 + e1 + e2 + e3 + e4 + e5, orig.subrange(48, len), e6);
            assert(orig.subrange(48, len).subrange(8, len - 48) =~= orig.subrange(56, len));
        }
        assert(buf@ == e0 + e1 + e2 + e3 + e4 + e5 + e6 + orig.subrange(56, len));

        write_u64_le(buf, RET_OFF_RESERVED, self.reserved);
        proof {
            lemma_splice_after_prefix(
                e0 + e1 + e2 + e3 + e4 + e5 + e6,
                orig.subrange(56, len),
                e7,
            );
            assert(orig.subrange(56, len).subrange(8, len - 56) =~= orig.subrange(64, len));
        }
        assert(buf@ == e0 + e1 + e2 + e3 + e4 + e5 + e6 + e7 + orig.subrange(64, len));
        true
    }

    /// A valid acceptance response that echoes the request's identifying fields.
    pub fn accept(req: &MatcherRequest, exec_price_e6: u64, exec_size: i128) -> (r: Self)
        ensures
            r == spec_response(*req, FLAG_VALID, exec_price_e6, exec_size),
            r.abi_version == ABI_VERSION,
            r.flags == FLAG_VALID,
            r.exec_price_e6 == exec_price_e6,
            r.exec_size == exec_size,
            r.req_id == req.req_id,
            r.lp_account_id == req.lp_account_id,
            r.oracle_price_e6 == req.oracle_price_e6,
            r.reserved == 0,
    {
        Self {
            abi_version: ABI_VERSION,
            flags: FLAG_VALID,
            exec_price_e6,
            exec_size,
            req_id: req.req_id,
            lp_account_id: req.lp_account_id,
            oracle_price_e6: req.oracle_price_e6,
            reserved: 0,
        }
    }

    /// A valid partial-fill (or zero-fill) response.
    pub fn partial(req: &MatcherRequest, exec_price_e6: u64, exec_size: i128) -> (r: Self)
        ensures
            r == spec_response(*req, FLAG_VALID | FLAG_PARTIAL_OK, exec_price_e6, exec_size),
            r.abi_version == ABI_VERSION,
            r.flags == FLAG_VALID | FLAG_PARTIAL_OK,
            r.exec_price_e6 == exec_price_e6,
            r.exec_size == exec_size,
            r.req_id == req.req_id,
            r.lp_account_id == req.lp_account_id,
            r.oracle_price_e6 == req.oracle_price_e6,
            r.reserved == 0,
    {
        Self {
            abi_version: ABI_VERSION,
            flags: FLAG_VALID | FLAG_PARTIAL_OK,
            exec_price_e6,
            exec_size,
            req_id: req.req_id,
            lp_account_id: req.lp_account_id,
            oracle_price_e6: req.oracle_price_e6,
            reserved: 0,
        }
    }

    /// A rejection response: no price, no fill.
    pub fn reject(req: &MatcherRequest) -> (r: Self)
        ensures
            r == spec_response(*req, FLAG_REJECTED, 0, 0),
            r.abi_version == ABI_VERSION,
            r.flags == FLAG_REJECTED,
            r.exec_price_e6 == 0,
            r.exec_size == 0,
            r.req_id == req.req_id,
            r.lp_account_id == req.lp_account_id,
            r.oracle_price_e6 == req.oracle_price_e6,
            r.reserved == 0,
    {
        Self {
            abi_version: ABI_VERSION,
            flags: FLAG_REJECTED,
            exec_price_e6: 0,
            exec_size: 0,
            req_id: req.req_id,
            lp_account_id: req.lp_account_id,
            oracle_price_e6: req.oracle_price_e6,
            reserved: 0,
        }
    }
}

// ── Laws of the wire format ──────────────────────────────────────────────────
/// The wire constants have their ABI values.
pub proof fn lemma_abi_constants()
    ensures
        ABI_VERSION == 1,
        CALL_TAG == 0,
        CALL_LEN == 67,
        RETURN_PREFIX_LEN == 64,
        CONTEXT_LEN == 320,
        CALL_OFF_TAG == 0,
        CALL_OFF_REQ_ID == 1,
        CALL_OFF_LP_IDX == 9,
        CALL_OFF_LP_ACCOUNT_ID == 11,
        CALL_OFF_ORACLE_PRICE == 19,
        CALL_OFF_REQ_SIZE == 27,
        CALL_OFF_PADDING == 43,
        RET_OFF_ABI_VERSION == 0,
        RET_OFF_FLAGS == 4,
        RET_OFF_EXEC_PRICE == 8,
        RET_OFF_EXEC_SIZE == 16,
        RET_OFF_REQ_ID == 32,
        RET_OFF_LP_ACCOUNT_ID == 40,
        RET_OFF_ORACLE_PRICE == 48,
        RET_OFF_RESERVED == 56,
        FLAG_VALID == 1,
        FLAG_PARTIAL_OK == 2,
        FLAG_REJECTED == 4,
{
}

/// A response built for a request carries the version, flags, price and size
/// it is given, the request's id, LP account id and oracle price, and a zero
/// reserved word.
pub proof fn lemma_response_fields(req: MatcherRequest, flags: u32, price: u64, size: i128)
    ensures
        spec_response(req, flags, price, size).abi_version == 1,
        spec_response(req, flags, price, size).flags == flags,
        spec_response(req, flags, price, size).exec_price_e6 == price,
        spec_response(req, flags, price, size).exec_size == size,
        spec_response(req, flags, price, size).req_id == req.req_id,
        spec_response(req, flags, price, size).lp_account_id == req.lp_account_id,
        spec_response(req, flags, price, size).oracle_price_e6 == req.oracle_price_e6,
        spec_response(req, flags, price, size).reserved == 0,
{
}

/// Each field of an encoded response sits at its ABI offset, least
/// significant byte first: version at 0, flags at 4, price at 8, size (two's
/// complement) at 16, request id at 32, LP account id at 40, oracle price at
/// 48 and the reserved word at 56.
pub proof fn lemma_return_layout(r: MatcherReturn)
    ensures
        spec_return_bytes(r).len() == 64,
        spec_return_bytes(r).subrange(0, 4) == le_bytes(r.abi_version as nat, 4),
        spec_return_bytes(r).subrange(4, 8) == le_bytes(r.flags as nat, 4),
        spec_return_bytes(r).subrange(8, 16) == le_bytes(r.exec_price_e6 as nat, 8),
        spec_return_bytes(r).subrange(16, 32) == le_bytes(twos128(r.exec_size), 16),
        spec_return_bytes(r).subrange(32, 40) == le_bytes(r.req_id as nat, 8),
        spec_return_bytes(r).subrange(40, 48) == le_bytes(r.lp_account_id as nat, 8),
        spec_return_bytes(r).subrange(48, 56) == le_bytes(r.oracle_price_e6 as nat, 8),
        spec_return_bytes(r).subrange(56, 64) == le_bytes(r.reserved as nat, 8),
{
    broadcast use lemma_le_bytes_len;

    let b = spec_return_bytes(r);
    assert(b.subrange(0, 4) =~= le_bytes(r.abi_version as nat, 4));
    assert(b.subrange(4, 8) =~= le_bytes(r.flags as nat, 4));
    assert(b.subrange(8, 16) =~= le_bytes(r.exec_price_e6 as nat, 8));
    assert(b.subrange(16, 32) =~= le_bytes(twos128(r.exec_size), 16));
    assert(b.subrange(32, 40) =~= le_bytes(r.req_id as nat, 8));
    assert(b.subrange(40, 48) =~= le_bytes(r.lp_account_id as nat, 8));
    assert(b.subrange(48, 56) =~= le_bytes(r.oracle_price_e6 as nat, 8));
    assert(b.subrange(56, 64) =~= le_bytes(r.reserved as nat, 8));
}

/// The reader takes each field from its ABI offset (little-endian, the size
/// in two's complement); fewer than 64 bytes hold no response.
pub proof fn lemma_return_parse_layout(s: Seq<u8>)
    ensures
        s.len() < 64 ==> spec_parse_return(s) is None,
        s.len() >= 64 ==> (spec_parse_return(s) matches Some(r) && {
            &&& r.abi_version as nat == le_value(s.subrange(0, 4))
            &&& r.flags as nat == le_value(s.subrange(4, 8))
            &&& r.exec_price_e6 as nat == le_value(s.subrange(8, 16))
            &&& r.exec_size == from_twos128(le_value(s.subrange(16, 32)))
            &&& r.req_id as nat == le_value(s.subrange(32, 40))
            &&& r.lp_account_id as nat == le_value(s.subrange(40, 48))
            &&& r.oracle_price_e6 as nat == le_value(s.subrange(48, 56))
            &&& r.reserved as nat == le_value(s.subrange(56, 64))
        }),
{
    if s.len() >= 64 {
        lemma_pow256_values();
        lemma_le_value_bound(s.subrange(0, 4));
        lemma_le_value_bound(s.subrange(4, 8));
        lemma_le_value_bound(s.subrange(8, 16));
        lemma_le_value_bound(s.subrange(32, 40));
        lemma_le_value_bound(s.subrange(40, 48));
        lemma_le_value_bound(s.subrange(48, 56));
        lemma_le_value_bound(s.subrange(56, 64));
    }
}

/// Each field of an encoded call sits at its ABI offset: the tag byte 0 at 0,
/// request id at 1, LP index at 9, LP account id at 11, oracle price at 19,
/// size (two's complement) at 27, and zeros from 43 to 67.
pub proof fn lemma_request_layout(req: MatcherRequest)
    ensures
        spec_request_bytes(req).len() == 67,
        spec_request_bytes(req)[0] == 0,
        spec_request_bytes(req).subrange(1, 9) == le_bytes(req.req_id as nat, 8),
        spec_request_bytes(req).subrange(9, 11) == le_bytes(req.lp_idx as nat, 2),
        spec_request_bytes(req).subrange(11, 19) == le_bytes(req.lp_account_id as nat, 8),
        spec_request_bytes(req).subrange(19, 27) == le_bytes(req.oracle_price_e6 as nat, 8),
        spec_request_bytes(req).subrange(27, 43) == le_bytes(twos128(req.req_size), 16),
        forall|i: int| 43 <= i < 67 ==> spec_request_bytes(req)[i] == 0,
{
    broadcast use lemma_le_bytes_len;

    let b = spec_request_bytes(req);
    assert(b.subrange(1, 9) =~= le_bytes(req.req_id as nat, 8));
    assert(b.subrange(9, 11) =~= le_bytes(req.lp_idx as nat, 2));
    assert(b.subrange(11, 19) =~= le_bytes(req.lp_account_id as nat, 8));
    assert(b.subrange(19, 27) =~= le_bytes(req.oracle_price_e6 as nat, 8));
    assert(b.subrange(27, 43) =~= le_bytes(twos128(req.req_size), 16));
    assert forall|i: int| 43 <= i < 67 implies b[i] == 0 by {
        assert(b[i] == Seq::new(24, |k: int| 0u8)[i - 43]);
    }
}

/// A call parses exactly when it has at least 67 bytes, starts with the tag
/// byte 0 and has zeros from 43 to 67; the parser then takes each field from
/// its ABI offset (little-endian, the size in two's complement).
pub proof fn lemma_request_parse_layout(s: Seq<u8>)
    ensures
        spec_parse_request(s) is None <==> (s.len() < 67 || s[0] != 0 || exists|i: int|
            43 <= i < 67 && s[i] != 0),
        spec_parse_request(s) matches Some(r) ==> {
            &&& r.req_id as nat == le_value(s.subrange(1, 9))
            &&& r.lp_idx as nat == le_value(s.subrange(9, 11))
            &&& r.lp_account_id as nat == le_value(s.subrange(11, 19))
            &&& r.oracle_price_e6 as nat == le_value(s.subrange(19, 27))
            &&& r.req_size == from_twos128(le_value(s.subrange(27, 43)))
        },
{
    if s.len() >= 67 {
        lemma_pow256_values();
        lemma_le_value_bound(s.subrange(1, 9));
        lemma_le_value_bound(s.subrange(9, 11));
        lemma_le_value_bound(s.subrange(11, 19));
        lemma_le_value_bound(s.subrange(19, 27));
    }
}

/// An encoded response is exactly `RETURN_PREFIX_LEN` bytes long.
pub proof fn lemma_return_bytes_len(r: MatcherReturn)
    ensures
        spec_return_bytes(r).len() == RETURN_PREFIX_LEN,
{
    broadcast use lemma_le_bytes_len;

}

/// Reading a response back from the bytes that encode it gives the same
/// response, whatever bytes follow the prefix.
pub proof fn lemma_return_roundtrip(r: MatcherReturn, tail: Seq<u8>)
    ensures
        spec_parse_return(spec_return_bytes(r) + tail) == Some(r),
{
    broadcast use lemma_le_bytes_len;

    lemma_pow256_values();
    let s = spec_return_bytes(r) + tail;
    assert(s.subrange(0, 4) =~= le_bytes(r.abi_version as nat, 4));
    assert(s.subrange(4, 8) =~= le_bytes(r.flags as nat, 4));
    assert(s.subrange(8, 16) =~= le_bytes(r.exec_price_e6 as nat, 8));
    assert(s.subrange(16, 32) =~= le_bytes(twos128(r.exec_size), 16));
    assert(s.subrange(32, 40) =~= le_bytes(r.req_id as nat, 8));
    assert(s.subrange(40, 48) =~= le_bytes(r.lp_account_id as nat, 8));
    assert(s.subrange(48, 56) =~= le_bytes(r.oracle_price_e6 as nat, 8));
    assert(s.subrange(56, 64) =~= le_bytes(r.reserved as nat, 8));
    lemma_le_value_of_bytes(r.abi_version as nat, 4);
    lemma_le_value_of_bytes(r.flags as nat, 4);
    lemma_le_value_of_bytes(r.exec_price_e6 as nat, 8);
    lemma_twos128_roundtrip(r.exec_size);
    lemma_le_value_of_bytes(twos128(r.exec_size), 16);
    lemma_le_value_of_bytes(r.req_id as nat, 8);
    lemma_le_value_of_bytes(r.lp_account_id as nat, 8);
    lemma_le_value_of_bytes(r.oracle_price_e6 as nat, 8);
    lemma_le_value_of_bytes(r.reserved as nat, 8);
}

/// Every `RETURN_PREFIX_LEN`-byte prefix holds a response, and encoding that
/// response gives back exactly those bytes: no two encodings of one response.
pub proof fn lemma_return_canonical(s: Seq<u8>)
    requires
        s.len() >= RETURN_PREFIX_LEN,
    ensures
        spec_parse_return(s) is Some,
        spec_return_bytes(spec_parse_return(s).unwrap()) == s.subrange(
            0,
            RETURN_PREFIX_LEN as int,
        ),
{
    broadcast use lemma_le_bytes_len;

    lemma_pow256_values();
    let r = spec_parse_return(s).unwrap();
    lemma_le_value_bound(s.subrange(0, 4));
    lemma_le_value_bound(s.subrange(4, 8));
    lemma_le_value_bound(s.subrange(8, 16));
    lemma_le_value_bound(s.subrange(16, 32));
    lemma_le_value_bound(s.subrange(32, 40));
    lemma_le_value_bound(s.subrange(40, 48));
    lemma_le_value_bound(s.subrange(48, 56));
    lemma_le_value_bound(s.subrange(56, 64));
    lemma_le_bytes_of_value(s.subrange(0, 4));
    lemma_le_bytes_of_value(s.subrange(4, 8));
    lemma_le_bytes_of_value(s.subrange(8, 16));
    lemma_le_bytes_of_value(s.subrange(16, 32));
    lemma_le_bytes_of_value(s.subrange(32, 40));
    lemma_le_bytes_of_value(s.subrange(40, 48));
    lemma_le_bytes_of_value(s.subrange(48, 56));
    lemma_le_bytes_of_value(s.subrange(56, 64));
    lemma_from_twos128_roundtrip(le_field(s, 16, 16));
    assert(spec_return_bytes(r) =~= s.subrange(0, 4) + s.subrange(4, 8) + s.subrange(8, 16)
        + s.subrange(16, 32) + s.subrange(32, 40) + s.subrange(40, 48) + s.subrange(48, 56)
        + s.subrange(56, 64));
    assert(spec_return_bytes(r) =~= s.subrange(0, RETURN_PREFIX_LEN as int));
}

/// An encoded call is exactly `CALL_LEN` bytes long.
pub proof fn lemma_request_bytes_len(req: MatcherRequest)
    ensures
        spec_request_bytes(req).len() == CALL_LEN,
{
    broadcast use lemma_le_bytes_len;

}

/// Parsing the call that carries a request gives the same request, whatever
/// bytes follow the call.
pub proof fn lemma_request_roundtrip(req: MatcherRequest, tail: Seq<u8>)
    ensures
        spec_parse_request(spec_request_bytes(req) + tail) == Some(req),
{
    broadcast use lemma_le_bytes_len;

    lemma_pow256_values();
    let s = spec_request_bytes(req) + tail;
    assert(s.subrange(1, 9) =~= le_bytes(req.req_id as nat, 8));
    assert(s.subrange(9, 11) =~= le_bytes(req.lp_idx as nat, 2));
    assert(s.subrange(11, 19) =~= le_bytes(req.lp_account_id as nat, 8));
    assert(s.subrange(19, 27) =~= le_bytes(req.oracle_price_e6 as nat, 8));
    assert(s.subrange(27, 43) =~= le_bytes(twos128(req.req_size), 16));
    assert forall|i: int| CALL_OFF_PADDING <= i < CALL_LEN implies s[i] == 0 by {
        assert(s[i] == Seq::new(24, |k: int| 0u8)[i - 43]);
    }
    lemma_le_value_of_bytes(req.req_id as nat, 8);
    lemma_le_value_of_bytes(req.lp_idx as nat, 2);
    lemma_le_value_of_bytes(req.lp_account_id as nat, 8);
    lemma_le_value_of_bytes(req.oracle_price_e6 as nat, 8);
    lemma_twos128_roundtrip(req.req_size);
    lemma_le_value_of_bytes(twos128(req.req_size), 16);
}

/// A call that parses is byte for byte the encoding of the request it
/// yields: the parser accepts exactly one encoding of each request.
pub proof fn lemma_request_canonical(s: Seq<u8>)
    requires
        spec_parse_request(s) is Some,
    ensures
        spec_request_bytes(spec_parse_request(s).unwrap()) == s.subrange(0, CALL_LEN as int),
{
    broadcast use lemma_le_bytes_len;

    lemma_pow256_values();
    let r = spec_parse_request(s).unwrap();
    lemma_le_value_bound(s.subrange(1, 9));
    lemma_le_value_bound(s.subrange(9, 11));
    lemma_le_value_bound(s.subrange(11, 19));
    lemma_le_value_bound(s.subrange(19, 27));
    lemma_le_value_bound(s.subrange(27, 43));
    lemma_le_bytes_of_value(s.subrange(1, 9));
    lemma_le_bytes_of_value(s.subrange(9, 11));
    lemma_le_bytes_of_value(s.subrange(11, 19));
    lemma_le_bytes_of_value(s.subrange(19, 27));
    lemma_le_bytes_of_value(s.subrange(27, 43));
    lemma_from_twos128_roundtrip(le_field(s, 27, 16));
    assert(s.subrange(43, 67) =~= Seq::new(24, |k: int| 0u8));
    assert(s.subrange(0, 1) =~= seq![CALL_TAG]);
    assert(spec_request_bytes(r) =~= s.subrange(0, 1) + s.subrange(1, 9) + s.subrange(9, 11)
        + s.subrange(11, 19) + s.subrange(19, 27) + s.subrange(27, 43) + s.subrange(43, 67));
    assert(spec_request_bytes(r) =~= s.subrange(0, CALL_LEN as int));
}

} // verus!
