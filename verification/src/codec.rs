//! The cross-chain argument codec.
//!
//! A deployment request arrives as one ABI-encoded byte payload with a
//! fixed schema: the 32-byte asset id as an unsigned big-endian word,
//! the asset type and version as two further unsigned words, the
//! admin's 42-character address string, the token name, symbol and
//! base URI strings, and a single-byte field for the decimal count.
//! The byte-level encoding rules are a black box: decoding is done by
//! an outside ABI library behind a trusted wrapper, and everything
//! after the raw decode — arity, field kinds, widths, the address
//! length — is checked here and proved exact.

use vstd::prelude::*;

use alloy_sol_types::private::U256;
use alloy_sol_types::SolValue;
use ethabi::{ParamType, Token};

use crate::types::{Bytes32, Error};

verus! {

/// The unsigned big-endian value of a byte string.
pub open spec fn be_value(s: Seq<u8>) -> nat
    decreases s.len(),
{
    if s.len() == 0 {
        0
    } else {
        (be_value(s.drop_last()) * 256 + s.last()) as nat
    }
}

/// 256 to the power `n`: the number of byte strings of length `n`.
pub open spec fn pow256(n: nat) -> nat
    decreases n,
{
    if n == 0 {
        1nat
    } else {
        256 * pow256((n - 1) as nat)
    }
}

proof fn lemma_pow256_pos(n: nat)
    ensures
        pow256(n) >= 1,
    decreases n,
{
    if n > 0 {
        lemma_pow256_pos((n - 1) as nat);
    }
}

/// A big-endian value is bounded by the count of strings of its
/// length.
proof fn lemma_be_value_bound(s: Seq<u8>)
    ensures
        be_value(s) < pow256(s.len()),
    decreases s.len(),
{
    if s.len() == 0 {
    } else {
        lemma_be_value_bound(s.drop_last());
    }
}

/// Reading one more byte multiplies the value by 256 and adds it.
proof fn lemma_be_value_step(s: Seq<u8>, i: int)
    requires
        0 <= i < s.len(),
    ensures
        be_value(s.subrange(0, i + 1)) == be_value(s.subrange(0, i)) * 256 + s[i],
{
    assert(s.subrange(0, i + 1).drop_last() =~= s.subrange(0, i));
    assert(s.subrange(0, i + 1).last() == s[i]);
}

/// The big-endian value of 16 bytes of `bytes` starting at `start`.
fn be_u128_at(bytes: &Vec<u8>, start: usize) -> (h: u128)
    requires
        start + 16 <= bytes@.len(),
    ensures
        h == be_value(bytes@.subrange(start as int, start as int + 16)),
{
    let ghost win = bytes@.subrange(start as int, start as int + 16);
    let n = bytes.len();
    let mut h: u128 = 0;
    let mut i: usize = 0;
    while i < 16
        invariant
            0 <= i <= 16,
            n == bytes@.len(),
            start + 16 <= n,
            win == bytes@.subrange(start as int, start as int + 16),
            h == be_value(win.subrange(0, i as int)),
        decreases 16 - i,
    {
        proof {
            lemma_be_value_step(win, i as int);
            lemma_be_value_bound(win.subrange(0, i as int));
            lemma_pow256_bound_16(i as nat);
        }
        h = h * 256 + bytes[start + i] as u128;
        i = i + 1;
    }
    proof {
        assert(win.subrange(0, 16) =~= win);
    }
    h
}

/// `pow256` of at most 16 fits the 128-bit range.
proof fn lemma_pow256_bound_16(i: nat)
    requires
        i <= 15,
    ensures
        (pow256(i) - 1) * 256 + 255 < 0x100000000000000000000000000000000,
    decreases i,
{
    assert(pow256(16) == 0x100000000000000000000000000000000) by {
        reveal_with_fuel(pow256, 17);
    }
    lemma_pow256_mono(i + 1, 16);
    lemma_pow256_pos(i);
    assert((pow256(i) - 1) * 256 + 255 < pow256(i) * 256);
}

proof fn lemma_pow256_mono(a: nat, b: nat)
    requires
        a <= b,
    ensures
        pow256(a) <= pow256(b),
    decreases b,
{
    if a < b {
        lemma_pow256_mono(a, (b - 1) as nat);
        lemma_pow256_pos((b - 1) as nat);
    }
}

/// A 32-byte big-endian word as a `Bytes32`: the first 16 bytes give
/// the high half, the last 16 the low half.
pub open spec fn spec_bytes32_of(s: Seq<u8>) -> Bytes32 {
    Bytes32 {
        hi: be_value(s.subrange(0, 16)) as u128,
        lo: be_value(s.subrange(16, 32)) as u128,
    }
}

/// Read a 32-byte big-endian word into a `Bytes32`.
pub fn bytes32_of_be(bytes: &Vec<u8>) -> (r: Bytes32)
    requires
        bytes@.len() == 32,
    ensures
        r == spec_bytes32_of(bytes@),
{
    proof {
        lemma_be_value_bound(bytes@.subrange(0, 16));
        lemma_be_value_bound(bytes@.subrange(16, 32));
        lemma_pow256_bound_16(15);
        assert(pow256(16) == 0x100000000000000000000000000000000) by {
            reveal_with_fuel(pow256, 17);
        }
    }
    let hi = be_u128_at(bytes, 0);
    let lo = be_u128_at(bytes, 16);
    Bytes32 { hi, lo }
}

/// Whether a 32-byte unsigned word fits 32 bits: all bytes above the
/// lowest four are zero.
pub open spec fn spec_word_fits_u32(s: Seq<u8>) -> bool {
    forall|j: int| 0 <= j < 28 ==> s[j] == 0
}

/// The low 32 bits of a 32-byte big-endian word, `None` when the
/// value does not fit.
fn be_u32_checked(bytes: &Vec<u8>) -> (r: Option<u32>)
    requires
        bytes@.len() == 32,
    ensures
        match r {
            Some(v) => spec_word_fits_u32(bytes@) && v == be_value(bytes@.subrange(28, 32)),
            None => !spec_word_fits_u32(bytes@),
        },
{
    let mut i: usize = 0;
    while i < 28
        invariant
            0 <= i <= 28,
            bytes@.len() == 32,
            forall|j: int| 0 <= j < i ==> bytes@[j] == 0,
        decreases 28 - i,
    {
        if bytes[i] != 0 {
            return None;
        }
        i = i + 1;
    }
    let ghost win = bytes@.subrange(28, 32);
    let mut v: u32 = 0;
    let mut k: usize = 0;
    while k < 4
        invariant
            0 <= k <= 4,
            bytes@.len() == 32,
            win == bytes@.subrange(28, 32),
            v == be_value(win.subrange(0, k as int)),
            v < pow256(k as nat),
        decreases 4 - k,
    {
        proof {
            lemma_be_value_step(win, k as int);
            lemma_be_value_bound(win.subrange(0, (k + 1) as int));
            assert(pow256(4) == 0x100000000) by {
                reveal_with_fuel(pow256, 5);
            }
            lemma_pow256_mono((k + 1) as nat, 4);
        }
        v = v * 256 + bytes[28 + k] as u32;
        k = k + 1;
    }
    proof {
        assert(win.subrange(0, 4) =~= win);
    }
    Some(v)
}

/// One decoded ABI field, reduced to plain values: an unsigned word
/// as its 32 big-endian bytes, a string, a fixed-length byte field,
/// or any other shape the schema never produces.
pub enum AbiValue {
    Uint(Vec<u8>),
    Str(String),
    FixedBytes(Vec<u8>),
    Other,
}

/// The mathematical shape of one decoded ABI field.
pub enum AbiValueV {
    Uint(Seq<u8>),
    Str(Seq<char>),
    FixedBytes(Seq<u8>),
    Other,
}

impl View for AbiValue {
    type V = AbiValueV;

    open spec fn view(&self) -> AbiValueV {
        match self {
            AbiValue::Uint(b) => AbiValueV::Uint(b@),
            AbiValue::Str(s) => AbiValueV::Str(s@),
            AbiValue::FixedBytes(b) => AbiValueV::FixedBytes(b@),
            AbiValue::Other => AbiValueV::Other,
        }
    }
}

impl DeepView for AbiValue {
    type V = AbiValueV;

    open spec fn deep_view(&self) -> AbiValueV {
        self.view()
    }
}

/// The fields that the outside ABI library decodes from a payload
/// under the fixed deployment schema, reduced to plain values;
/// `None` when the bytes do not parse under that schema.  The result
/// is a function of the payload bytes alone.
pub uninterp spec fn abi_decoded_payload(data: Seq<u8>) -> Option<Seq<AbiValueV>>;

/// Relies on `ethabi::decode` with the fixed deployment schema
/// (uint256, uint256, uint256, string, string, string, bytes1,
/// string): deterministic in the payload bytes, `Err` exactly when
/// they do not parse under that schema.  Each decoded token is moved
/// into the matching `AbiValue` shape, an unsigned word as the 32
/// big-endian bytes of its value.
#[verifier::external_body]
fn abi_decode_deploy_payload(data: &Vec<u8>) -> (r: Option<Vec<AbiValue>>)
    ensures
        match r {
            Some(v) => abi_decoded_payload(data@) == Some(v.deep_view()),
            None => abi_decoded_payload(data@) is None,
        },
{
    let schema = [ParamType::Uint(256), ParamType::Uint(256), ParamType::Uint(256),
        ParamType::String, ParamType::String, ParamType::String,
        ParamType::FixedBytes(1), ParamType::String];
    match ethabi::decode(&schema, data.as_slice()) {
        Ok(tokens) => Some(tokens.into_iter().map(|t| match t {
            Token::Uint(u) => {
                let mut b = [0u8; 32]; u.to_big_endian(&mut b); AbiValue::Uint(b.to_vec())
            },
            Token::String(s) => AbiValue::Str(s),
            Token::FixedBytes(b) => AbiValue::FixedBytes(b),
            _ => AbiValue::Other,
        }).collect()),
        Err(_) => None,
    }
}

/// The decoded constructor arguments of one ledger deployment.
pub struct ArgData {
    pub rwa_id: Bytes32,
    pub rwa_type: u32,
    pub version: u32,
    /// The admin's address string, exactly 42 characters.
    pub token_admin_from: String,
    pub token_name: String,
    pub symbol: String,
    pub decimals: u32,
    pub base_uri: String,
}

/// The mathematical shape of a decoded argument record.
pub struct ArgDataV {
    pub rwa_id: Bytes32,
    pub rwa_type: u32,
    pub version: u32,
    pub token_admin_from: Seq<char>,
    pub token_name: Seq<char>,
    pub symbol: Seq<char>,
    pub decimals: u32,
    pub base_uri: Seq<char>,
}

impl View for ArgData {
    type V = ArgDataV;

    open spec fn view(&self) -> ArgDataV {
        ArgDataV {
            rwa_id: self.rwa_id,
            rwa_type: self.rwa_type,
            version: self.version,
            token_admin_from: self.token_admin_from@,
            token_name: self.token_name@,
            symbol: self.symbol@,
            decimals: self.decimals,
            base_uri: self.base_uri@,
        }
    }
}

/// An argument result with the record replaced by its shape.
pub open spec fn view_arg_result(r: Result<ArgData, Error>) -> Result<ArgDataV, Error> {
    match r {
        Ok(a) => Ok(a@),
        Err(e) => Err(e),
    }
}

/// What the decoded fields must look like to form an argument
/// record: eight fields of the right kinds, 32-byte unsigned words
/// with the classification and version fitting 32 bits, a 42-character
/// admin string, and a single-byte decimal field.  Anything else is a
/// `DecodeError`.
pub open spec fn spec_parse_deploy_values(vals: Seq<AbiValueV>) -> Result<ArgDataV, Error> {
    if vals.len() != 8 {
        Err(Error::DecodeError)
    } else {
        match (vals[0], vals[1], vals[2], vals[3], vals[4], vals[5], vals[6], vals[7]) {
            (
                AbiValueV::Uint(b0),
                AbiValueV::Uint(b1),
                AbiValueV::Uint(b2),
                AbiValueV::Str(admin),
                AbiValueV::Str(name),
                AbiValueV::Str(symbol),
                AbiValueV::FixedBytes(dec),
                AbiValueV::Str(uri),
            ) => {
                if b0.len() != 32 || b1.len() != 32 || b2.len() != 32 {
                    Err(Error::DecodeError)
                } else if !spec_word_fits_u32(b1) || !spec_word_fits_u32(b2) {
                    Err(Error::DecodeError)
                } else if admin.len() != 42 {
                    Err(Error::DecodeError)
                } else if dec.len() != 1 {
                    Err(Error::DecodeError)
                } else {
                    Ok(
                        ArgDataV {
                            rwa_id: spec_bytes32_of(b0),
                            rwa_type: be_value(b1.subrange(28, 32)) as u32,
                            version: be_value(b2.subrange(28, 32)) as u32,
                            token_admin_from: admin,
                            token_name: name,
                            symbol: symbol,
                            decimals: dec[0] as u32,
                            base_uri: uri,
                        },
                    )
                }
            },
            _ => Err(Error::DecodeError),
        }
    }
}

/// Turn the decoded fields into an argument record, checking the
/// schema: exactly eight fields, the right kind in each position,
/// classification and version within 32 bits, the admin string
/// exactly 42 characters, and a single byte of decimals.
pub fn parse_deploy_values(vals: &Vec<AbiValue>) -> (r: Result<ArgData, Error>)
    ensures
        view_arg_result(r) == spec_parse_deploy_values(vals.deep_view()),
{
    proof {
        assert(vals.deep_view().len() == vals@.len());
        assert forall|i: int| 0 <= i < vals@.len() implies vals.deep_view()[i] == vals@[i]@ by {}
    }
    if vals.len() != 8 {
        return Err(Error::DecodeError);
    }
    let rwa_id = match &vals[0] {
        AbiValue::Uint(b0) => {
            if b0.len() != 32 {
                return Err(Error::DecodeError);
            }
            bytes32_of_be(b0)
        },
        _ => {
            return Err(Error::DecodeError);
        },
    };
    let rwa_type = match &vals[1] {
        AbiValue::Uint(b1) => {
            if b1.len() != 32 {
                return Err(Error::DecodeError);
            }
            match be_u32_checked(b1) {
                Some(v) => v,
                None => {
                    return Err(Error::DecodeError);
                },
            }
        },
        _ => {
            return Err(Error::DecodeError);
        },
    };
    let version = match &vals[2] {
        AbiValue::Uint(b2) => {
            if b2.len() != 32 {
                return Err(Error::DecodeError);
            }
            match be_u32_checked(b2) {
                Some(v) => v,
                None => {
                    return Err(Error::DecodeError);
                },
            }
        },
        _ => {
            return Err(Error::DecodeError);
        },
    };
    let token_admin_from = match &vals[3] {
        AbiValue::Str(s) => {
            if s.as_str().unicode_len() != 42 {
                return Err(Error::DecodeError);
            }
            s.clone()
        },
        _ => {
            return Err(Error::DecodeError);
        },
    };
    let token_name = match &vals[4] {
        AbiValue::Str(s) => s.clone(),
        _ => {
            return Err(Error::DecodeError);
        },
    };
    let symbol = match &vals[5] {
        AbiValue::Str(s) => s.clone(),
        _ => {
            return Err(Error::DecodeError);
        },
    };
    let decimals = match &vals[6] {
        AbiValue::FixedBytes(b) => {
            if b.len() != 1 {
                return Err(Error::DecodeError);
            }
            b[0] as u32
        },
        _ => {
            return Err(Error::DecodeError);
        },
    };
    let base_uri = match &vals[7] {
        AbiValue::Str(s) => s.clone(),
        _ => {
            return Err(Error::DecodeError);
        },
    };
    Ok(
        ArgData {
            rwa_id,
            rwa_type,
            version,
            token_admin_from,
            token_name,
            symbol,
            decimals,
            base_uri,
        },
    )
}

/// What decoding a whole payload must yield: the raw ABI decode under
/// the fixed schema, then the checked argument record.
pub open spec fn spec_decode_ctm_arg(data: Seq<u8>) -> Result<ArgDataV, Error> {
    match abi_decoded_payload(data) {
        Some(vals) => spec_parse_deploy_values(vals),
        None => Err(Error::DecodeError),
    }
}

/// Decode one deployment payload into an argument record; fails
/// `DecodeError` exactly when the bytes do not match the schema.
pub fn decode_ctm_arg(data: &Vec<u8>) -> (r: Result<ArgData, Error>)
    ensures
        view_arg_result(r) == spec_decode_ctm_arg(data@),
{
    match abi_decode_deploy_payload(data) {
        Some(v) => parse_deploy_values(&v),
        None => Err(Error::DecodeError),
    }
}

/// The `n`-byte big-endian representation of `h` (mod 256^n).
pub open spec fn spec_be_bytes(h: nat, n: nat) -> Seq<u8>
    decreases n,
{
    if n == 0 {
        Seq::empty()
    } else {
        spec_be_bytes(h / 256, (n - 1) as nat).push((h % 256) as u8)
    }
}

proof fn lemma_spec_be_bytes_len(h: nat, n: nat)
    ensures
        spec_be_bytes(h, n).len() == n,
    decreases n,
{
    if n > 0 {
        lemma_spec_be_bytes_len(h / 256, (n - 1) as nat);
    }
}

/// Reading back the big-endian bytes of `h` yields `h` mod 256^n.
proof fn lemma_spec_be_bytes_value(h: nat, n: nat)
    ensures
        be_value(spec_be_bytes(h, n)) == h % pow256(n),
    decreases n,
{
    if n == 0 {
        assert(pow256(0) == 1);
    } else {
        let tail = spec_be_bytes(h / 256, (n - 1) as nat);
        lemma_spec_be_bytes_value(h / 256, (n - 1) as nat);
        assert(spec_be_bytes(h, n).drop_last() =~= tail);
        assert(spec_be_bytes(h, n).last() == (h % 256) as u8);
        lemma_pow256_pos((n - 1) as nat);
        vstd::arithmetic::div_mod::lemma_mod_breakdown(h as int, 256, pow256((n - 1) as nat) as int);
        assert(pow256(n) == 256 * pow256((n - 1) as nat));
    }
}

/// The 32 big-endian bytes of a `Bytes32`.
pub open spec fn spec_be_bytes32(id: Bytes32) -> Seq<u8> {
    spec_be_bytes(id.hi as nat, 16) + spec_be_bytes(id.lo as nat, 16)
}

/// The `n` low-order big-endian bytes of `h`.
fn be_bytes_u128(h: u128, n: u32) -> (r: Vec<u8>)
    ensures
        r@ == spec_be_bytes(h as nat, n as nat),
    decreases n,
{
    if n == 0 {
        Vec::new()
    } else {
        let mut r = be_bytes_u128(h / 256, n - 1);
        r.push((h % 256) as u8);
        r
    }
}

/// Write a `Bytes32` as its 32-byte big-endian word; the exact
/// inverse of `bytes32_of_be`.
pub fn bytes32_to_be(id: Bytes32) -> (r: Vec<u8>)
    ensures
        r@ == spec_be_bytes32(id),
        r@.len() == 32,
        spec_bytes32_of(r@) == id,
{
    let mut r = be_bytes_u128(id.hi, 16);
    let mut lo = be_bytes_u128(id.lo, 16);
    r.append(&mut lo);
    proof {
        lemma_spec_be_bytes_len(id.hi as nat, 16);
        lemma_spec_be_bytes_len(id.lo as nat, 16);
        assert(r@.subrange(0, 16) =~= spec_be_bytes(id.hi as nat, 16));
        assert(r@.subrange(16, 32) =~= spec_be_bytes(id.lo as nat, 16));
        lemma_spec_be_bytes_value(id.hi as nat, 16);
        lemma_spec_be_bytes_value(id.lo as nat, 16);
        assert(pow256(16) == 0x100000000000000000000000000000000) by {
            reveal_with_fuel(pow256, 17);
        }
        assert(id.hi as nat % pow256(16) == id.hi as nat) by {
            assert(id.hi < 0x100000000000000000000000000000000);
        };
        assert(id.lo as nat % pow256(16) == id.lo as nat) by {
            assert(id.lo < 0x100000000000000000000000000000000);
        };
    }
    r
}

/// The payload that the outside ABI library encodes from one local
/// deployment request: an asset id as a byte string, the admin, name,
/// symbol and base-URI strings, the decimal count, and the parallel
/// slot number and name lists.  The result is a function of the
/// arguments alone.
pub uninterp spec fn deploy_payload_of(
    rwa_id: Seq<u8>,
    admin: Seq<char>,
    name: Seq<char>,
    symbol: Seq<char>,
    decimals: u32,
    base_uri: Seq<char>,
    slot_numbers: Seq<u32>,
    slot_names: Seq<Seq<char>>,
) -> Seq<u8>;

/// Relies on `SolValue::abi_encode` from the alloy ABI library, on
/// the tuple (bytes[], string, string, string, uint32, string,
/// uint256[], string[]) carrying the asset id and token details: the
/// encoding is a function of the arguments alone.
#[verifier::external_body]
pub(crate) fn abi_encode_deploy_args(
    rwa_id: &Vec<u8>,
    admin: &String,
    name: &String,
    symbol: &String,
    decimals: u32,
    base_uri: &String,
    slot_numbers: &Vec<u32>,
    slot_names: &Vec<String>,
) -> (r: Vec<u8>)
    ensures
        r@ == deploy_payload_of(
            rwa_id@,
            admin@,
            name@,
            symbol@,
            decimals,
            base_uri@,
            slot_numbers@,
            slot_names.deep_view(),
        ),
{
    let nums: Vec<U256> = slot_numbers.iter().map(|n| U256::from(*n)).collect();
    (vec![rwa_id.clone()], admin.clone(), name.clone(), symbol.clone(), decimals,
        base_uri.clone(), nums, slot_names.clone()).abi_encode()
}

} // verus!
