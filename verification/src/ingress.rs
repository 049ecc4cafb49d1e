//! Ingress-side logic: the error shapes served to submitters, hex
//! parameter parsing, timestamp materialization, the preparation and
//! validation of accepted transactions, batch storage with the group
//! discipline, and the group cancel entry point. HTTP framing, JSON, and
//! signature recovery happen outside the library.

use vstd::prelude::*;
use vstd::string::StringSliceAdditionalSpecFns;
use vstd::string::StrSliceExecFns;
use crate::digest::{group_id_from_nonce_key, keccak_of};
use crate::index::ReadyIndex;
use crate::store::{attempts_monotone, terminal_frozen};
use crate::hexcode::{hex_decode, hex_decoded, hex_digit, hex_of, is_hex_body};
use crate::memo::GroupMemo;
use crate::models::{clone_bytes, clone_opt_bytes, opt_view, NewTx};
use crate::nonce_key::{is_random_nonce_key, spec_is_random_nonce_key};
use crate::status::TxStatus;
use crate::text::{ascii_string, ascii_view, dec_chars, u64_dec_string};

verus! {

/// How an ingress failure is served.
#[derive(Debug, Clone, Copy, PartialEq, Eq, Structural)]
pub enum ApiErrorKind {
    BadRequest,
    NotFound,
    Internal,
    Unauthorized,
}

/// An ingress failure: its class and its message.
#[derive(Debug)]
pub struct ApiError {
    pub kind: ApiErrorKind,
    pub message: String,
}

impl ApiError {
    /// A client mistake.
    pub fn bad_request(message: &str) -> (r: ApiError)
        ensures
            r.kind is BadRequest,
            r.message@ == message@,
    {
        ApiError { kind: ApiErrorKind::BadRequest, message: String::from_str(message) }
    }

    /// Nothing stored under the given key.
    pub fn not_found(message: &str) -> (r: ApiError)
        ensures
            r.kind is NotFound,
            r.message@ == message@,
    {
        ApiError { kind: ApiErrorKind::NotFound, message: String::from_str(message) }
    }

    /// A fault of the pipeline's own.
    pub fn internal(message: &str) -> (r: ApiError)
        ensures
            r.kind is Internal,
            r.message@ == message@,
    {
        ApiError { kind: ApiErrorKind::Internal, message: String::from_str(message) }
    }

    /// A caller without a verified signature.
    pub fn unauthorized(message: &str) -> (r: ApiError)
        ensures
            r.kind is Unauthorized,
            r.message@ == message@,
    {
        ApiError { kind: ApiErrorKind::Unauthorized, message: String::from_str(message) }
    }
}

/// A JSON-RPC failure: its code and its message.
#[derive(Debug)]
pub struct RpcError {
    pub code: i64,
    pub message: String,
}

impl RpcError {
    /// A malformed request envelope.
    pub fn invalid_request(message: &str) -> (r: RpcError)
        ensures
            r.code == -32600,
            r.message@ == message@,
    {
        RpcError { code: -32600, message: String::from_str(message) }
    }

    /// Parameters of the wrong shape.
    pub fn invalid_params(message: &str) -> (r: RpcError)
        ensures
            r.code == -32602,
            r.message@ == message@,
    {
        RpcError { code: -32602, message: String::from_str(message) }
    }
}

/// The hex digits of a parameter, its optional `0x` prefix stripped.
pub open spec fn hex_input_body(s: Seq<u8>) -> Seq<u8> {
    if s.len() >= 2 && s[0] == 0x30 && s[1] == 0x78 {
        s.skip(2)
    } else {
        s
    }
}

/// Parses a hex parameter with an optional `0x` prefix. Fails exactly
/// when the digit count is odd or a byte is no hex digit.
pub fn parse_hex(value: &str) -> (r: Result<Vec<u8>, ApiError>)
    ensures
        r is Ok <==> is_hex_body(hex_input_body(value.spec_bytes())),
        r is Ok ==> r->Ok_0@ == hex_decoded(hex_input_body(value.spec_bytes())),
        r is Err ==> r->Err_0.kind is BadRequest,
        (hex_input_body(value.spec_bytes()).len() % 2 != 0 && r is Err) ==> r->Err_0.message@
            == "invalid hex length"@,
{
    let bytes = value.as_bytes_vec();
    let all = bytes.as_slice();
    let body: &[u8] = if all.len() >= 2 && all[0] == 0x30 && all[1] == 0x78 {
        &all[2..all.len()]
    } else {
        all
    };
    proof {
        assert(body@ == hex_input_body(value.spec_bytes()));
    }
    if body.len() % 2 != 0 {
        return Err(ApiError::bad_request("invalid hex length"));
    }
    match hex_decode(body) {
        Some(decoded) => Ok(decoded),
        None => Err(ApiError::bad_request("invalid hex digit")),
    }
}

/// Parses a hex parameter and insists on an exact byte width.
pub fn parse_fixed_hex(value: &str, len: usize) -> (r: Result<Vec<u8>, ApiError>)
    ensures
        r is Ok <==> is_hex_body(hex_input_body(value.spec_bytes())) && hex_decoded(
            hex_input_body(value.spec_bytes()),
        ).len() == len,
        r is Ok ==> r->Ok_0@ == hex_decoded(hex_input_body(value.spec_bytes())),
        r is Err ==> r->Err_0.kind is BadRequest,
        (is_hex_body(hex_input_body(value.spec_bytes())) && r is Err) ==> r->Err_0.message@
            == "expected "@ + dec_chars(len as nat) + " bytes, got "@ + dec_chars(
            hex_decoded(hex_input_body(value.spec_bytes())).len(),
        ),
{
    let bytes = match parse_hex(value) {
        Ok(b) => b,
        Err(e) => {
            return Err(e);
        },
    };
    if bytes.len() != len {
        let mut message = String::from_str("expected ");
        let want = u64_dec_string(len as u64);
        message.append(want.as_str());
        message.append(" bytes, got ");
        let got = u64_dec_string(bytes.len() as u64);
        message.append(got.as_str());
        return Err(ApiError { kind: ApiErrorKind::BadRequest, message });
    }
    Ok(bytes)
}

/// The largest unix second whose millisecond form fits a 64-bit instant.
pub const MAX_UNIX_SECONDS: u64 = 9_223_372_036_854_775;

/// Materializes a unix second as a millisecond instant; rejects seconds
/// beyond the representable range.
pub fn datetime_from_ts(ts: u64) -> (r: Result<i64, ApiError>)
    ensures
        r is Ok <==> ts <= MAX_UNIX_SECONDS,
        r is Ok ==> r->Ok_0 == 1000 * ts,
        r is Err ==> r->Err_0.kind is BadRequest && r->Err_0.message@ == "timestamp out of range"@,
{
    if ts > MAX_UNIX_SECONDS {
        return Err(ApiError::bad_request("timestamp out of range"));
    }
    Ok((ts * 1000) as i64)
}

/// A nonce key with its leading zero bytes removed.
pub open spec fn drop_leading_zeros(s: Seq<u8>) -> Seq<u8>
    decreases s.len(),
{
    if s.len() > 0 && s[0] == 0 {
        drop_leading_zeros(s.drop_first())
    } else {
        s
    }
}

/// The minimal hex rendering of a big-endian value: no leading zero
/// digits, a lone zero for zero.
pub open spec fn min_hex_chars(s: Seq<u8>) -> Seq<char> {
    let t = drop_leading_zeros(s);
    if t.len() == 0 {
        seq!['0']
    } else if t[0] < 0x10 {
        ascii_view(seq![hex_digit(t[0])]) + ascii_view(hex_of(t.drop_first()))
    } else {
        ascii_view(hex_of(t))
    }
}

proof fn lemma_drop_leading_zeros(s: Seq<u8>, z: int)
    requires
        0 <= z <= s.len(),
        forall|j: int| 0 <= j < z ==> s[j] == 0,
        z < s.len() ==> s[z] != 0,
    ensures
        drop_leading_zeros(s) == s.skip(z),
    decreases z,
{
    if z == 0 {
        assert(s.skip(0) =~= s);
    } else {
        assert(s.len() > 0 && s[0] == 0);
        lemma_drop_leading_zeros(s.drop_first(), z - 1);
        assert(s.drop_first().skip(z - 1) =~= s.skip(z));
    }
}

/// Renders a nonce key for display: the word `random` for the random
/// convention, otherwise the minimal `0x` hex form of its big-endian
/// value; anything wider than 32 bytes renders as zero.
pub fn u256_bytes_to_hex(bytes: &[u8]) -> (r: String)
    ensures
        spec_is_random_nonce_key(bytes@) ==> r@ == "random"@,
        !spec_is_random_nonce_key(bytes@) && bytes@.len() > 32 ==> r@ == "0x0"@,
        !spec_is_random_nonce_key(bytes@) && bytes@.len() <= 32 ==> r@ == seq!['0', 'x']
            + min_hex_chars(bytes@),
{
    if is_random_nonce_key(bytes) {
        return String::from_str("random");
    }
    if bytes.len() > 32 {
        return String::from_str("0x0");
    }
    let n = bytes.len();
    let mut z: usize = 0;
    while z < n && bytes[z] == 0
        invariant
            n == bytes@.len(),
            z <= n,
            forall|j: int| 0 <= j < z ==> bytes@[j] == 0,
        decreases n - z,
    {
        z = z + 1;
    }
    proof {
        lemma_drop_leading_zeros(bytes@, z as int);
    }
    let mut out = String::from_str("0x");
    proof {
        reveal_strlit("0x");
        reveal_strlit("0x0");
        reveal_strlit("0");
    }
    if z == n {
        proof {
            assert(drop_leading_zeros(bytes@) =~= Seq::<u8>::empty());
        }
        out.append("0");
        proof {
            assert(out@ =~= "0x0"@);
        }
        return out;
    }
    let ghost t = drop_leading_zeros(bytes@);
    let first = bytes[z];
    if first < 0x10 {
        let digit: u8 = if first < 10 {
            0x30 + first
        } else {
            0x61 + (first - 10)
        };
        let head = ascii_string(vec![digit]);
        out.append(head.as_str());
        let tail_digits = crate::hexcode::hex_encode(&bytes[z + 1..n]);
        proof {
            assert(forall|i: int|
                0 <= i < tail_digits@.len() ==> #[trigger] tail_digits@[i] == hex_of(
                    bytes@.subrange(z + 1, n as int),
                )[i]);
            assert(bytes@.subrange(z + 1, n as int) =~= t.drop_first());
        }
        let tail = ascii_string(tail_digits);
        out.append(tail.as_str());
        proof {
            assert(ascii_view(seq![digit]) =~= ascii_view(seq![hex_digit(t[0])]));
            assert(out@ =~= seq!['0', 'x'] + min_hex_chars(bytes@));
        }
        out
    } else {
        let digits = crate::hexcode::hex_encode(&bytes[z..n]);
        proof {
            assert(bytes@.subrange(z as int, n as int) =~= t);
            assert(forall|i: int|
                0 <= i < digits@.len() ==> #[trigger] digits@[i] == hex_of(t)[i]);
        }
        let tail = ascii_string(digits);
        out.append(tail.as_str());
        proof {
            assert(out@ =~= seq!['0', 'x'] + min_hex_chars(bytes@));
        }
        out
    }
}

/// The normalized fields the signed-transaction parser hands the core.
#[derive(Debug)]
pub struct ParsedTx {
    /// 32-byte content hash of the raw signed bytes.
    pub tx_hash: Vec<u8>,
    /// 20-byte recovered sender.
    pub sender: Vec<u8>,
    /// Optional 20-byte recovered fee payer.
    pub fee_payer: Option<Vec<u8>>,
    pub chain_id: u64,
    /// 32-byte big-endian lane selector.
    pub nonce_key: Vec<u8>,
    pub nonce: u64,
    pub valid_after: Option<u64>,
    pub valid_before: Option<u64>,
    /// The signed bytes, verbatim.
    pub raw_tx: Vec<u8>,
    /// The group memo found among the transaction's calls, if any.
    pub group: Option<GroupMemo>,
}

impl ParsedTx {
    /// The widths the parser guarantees.
    pub open spec fn wf(&self) -> bool {
        &&& self.tx_hash@.len() == 32
        &&& self.sender@.len() == 20
        &&& (self.fee_payer is Some ==> self.fee_payer->0@.len() == 20)
        &&& self.nonce_key@.len() == 32
    }
}

/// The clock reads before the unix epoch.
pub open spec fn prep_clock_err(now: i64) -> bool {
    now < 0
}

/// The validity window is inverted or empty.
pub open spec fn prep_window_err(p: ParsedTx) -> bool {
    p.valid_after is Some && p.valid_before is Some && p.valid_before->0 <= p.valid_after->0
}

/// The expiry second does not fit an instant.
pub open spec fn prep_before_range_err(p: ParsedTx) -> bool {
    p.valid_before is Some && p.valid_before->0 > MAX_UNIX_SECONDS
}

/// The transaction is already expired at arrival.
pub open spec fn prep_expired_err(p: ParsedTx, now: i64) -> bool {
    p.valid_before is Some && 1000 * p.valid_before->0 <= now
}

/// The eligibility second does not fit an instant.
pub open spec fn prep_after_range_err(p: ParsedTx) -> bool {
    p.valid_after is Some && p.valid_after->0 > MAX_UNIX_SECONDS
}

/// A random-lane transaction carries a validity floor.
pub open spec fn prep_random_err(p: ParsedTx) -> bool {
    spec_is_random_nonce_key(p.nonce_key@) && p.valid_after is Some
}

/// When the accepted row becomes eligible: the later of now and the
/// validity floor.
pub open spec fn spec_eligible_ms(p: ParsedTx, now: i64) -> int {
    if p.valid_after is Some && p.valid_after->0 > now / 1000 {
        1000 * p.valid_after->0
    } else {
        now as int
    }
}

/// Prepares an accepted, parsed transaction for storage: validates the
/// window against the clock and the random-lane rule, materializes the
/// eligibility and expiry instants, and derives the group tag from the
/// nonce key.
pub fn prepare_new_tx_from_parsed(parsed: &ParsedTx, now: i64) -> (r: Result<NewTx, ApiError>)
    requires
        parsed.wf(),
    ensures
        r is Err <==> prep_clock_err(now) || prep_window_err(*parsed) || prep_before_range_err(
            *parsed,
        ) || prep_expired_err(*parsed, now) || prep_after_range_err(*parsed) || prep_random_err(
            *parsed,
        ),
        r is Err ==> {
            let e = r->Err_0;
            if prep_clock_err(now) {
                e.kind is Internal && e.message@ == "system clock before unix epoch"@
            } else if prep_window_err(*parsed) {
                e.kind is BadRequest && e.message@ == "invalid validity window"@
            } else if prep_before_range_err(*parsed) {
                e.kind is BadRequest && e.message@ == "timestamp out of range"@
            } else if prep_expired_err(*parsed, now) {
                e.kind is BadRequest && e.message@ == "transaction already expired"@
            } else if prep_after_range_err(*parsed) {
                e.kind is BadRequest && e.message@ == "timestamp out of range"@
            } else {
                e.kind is BadRequest && e.message@
                    == "random nonce key requires valid_after to be unset"@
            }
        },
        r is Ok ==> {
            let n = r->Ok_0;
            &&& n.wf()
            &&& n.chain_id == parsed.chain_id
            &&& n.tx_hash@ == parsed.tx_hash@
            &&& n.raw_tx@ == parsed.raw_tx@
            &&& n.sender@ == parsed.sender@
            &&& opt_view(n.fee_payer) == opt_view(parsed.fee_payer)
            &&& n.nonce_key@ == parsed.nonce_key@
            &&& n.nonce == parsed.nonce
            &&& n.valid_after == parsed.valid_after
            &&& n.valid_before == parsed.valid_before
            &&& n.eligible_at == spec_eligible_ms(*parsed, now)
            &&& (n.expires_at is Some <==> parsed.valid_before is Some)
            &&& (parsed.valid_before is Some ==> n.expires_at->0 == 1000 * parsed.valid_before->0)
            &&& n.status is Queued
            &&& n.group_id is Some
            &&& n.group_id->0@ == keccak_of(parsed.nonce_key@).take(16)
            &&& n.next_action_at == n.eligible_at
        },
{
    if now < 0 {
        return Err(ApiError::internal("system clock before unix epoch"));
    }
    let now_seconds: u64 = (now as u64) / 1000;
    if let (Some(after), Some(before)) = (parsed.valid_after, parsed.valid_before) {
        if before <= after {
            return Err(ApiError::bad_request("invalid validity window"));
        }
    }
    let expires_at = match parsed.valid_before {
        Some(ts) => {
            match datetime_from_ts(ts) {
                Ok(instant) => Some(instant),
                Err(e) => {
                    return Err(e);
                },
            }
        },
        None => None,
    };
    if let Some(e) = expires_at {
        if e <= now {
            return Err(ApiError::bad_request("transaction already expired"));
        }
    }
    let eligible_at = match parsed.valid_after {
        Some(ts) => {
            if ts > now_seconds {
                match datetime_from_ts(ts) {
                    Ok(instant) => instant,
                    Err(e) => {
                        return Err(e);
                    },
                }
            } else {
                now
            }
        },
        None => now,
    };
    if is_random_nonce_key(parsed.nonce_key.as_slice()) && parsed.valid_after.is_some() {
        return Err(ApiError::bad_request("random nonce key requires valid_after to be unset"));
    }
    let group_id = group_id_from_nonce_key(parsed.nonce_key.as_slice());
    Ok(
        NewTx {
            chain_id: parsed.chain_id,
            tx_hash: clone_bytes(&parsed.tx_hash),
            raw_tx: clone_bytes(&parsed.raw_tx),
            sender: clone_bytes(&parsed.sender),
            fee_payer: clone_opt_bytes(&parsed.fee_payer),
            nonce_key: clone_bytes(&parsed.nonce_key),
            nonce: parsed.nonce,
            valid_after: parsed.valid_after,
            valid_before: parsed.valid_before,
            eligible_at,
            expires_at,
            status: TxStatus::Queued,
            group_id: Some(group_id),
            next_action_at: eligible_at,
        },
    )
}

/// The pairwise discipline of a group's validity windows: among members
/// with a `valid_before`, a strictly later nonce never expires earlier.
pub open spec fn spec_windows_ok(pairs: Seq<(u64, Option<u64>)>) -> bool {
    forall|a: int, b: int|
        0 <= a < pairs.len() && 0 <= b < pairs.len() && (#[trigger] pairs[a]).1 is Some && (
        #[trigger] pairs[b]).1 is Some && pairs[a].0 < pairs[b].0 ==> pairs[a].1->0 <= pairs[b].1->0
}

/// Validates the (nonce, valid_before) windows of one group, combined
/// over a batch and the rows already stored.
pub fn validate_nonce_valid_before_order(pairs: &Vec<(u64, Option<u64>)>) -> (r: Result<
    (),
    ApiError,
>)
    ensures
        r is Ok <==> spec_windows_ok(pairs@),
        r is Err ==> r->Err_0.kind is BadRequest && r->Err_0.message@
            == "group valid_before order must match nonce order"@,
{
    let n = pairs.len();
    let mut a: usize = 0;
    while a < n
        invariant
            n == pairs@.len(),
            a <= n,
            forall|x: int, y: int|
                0 <= x < a && 0 <= y < n && (#[trigger] pairs@[x]).1 is Some && (
                #[trigger] pairs@[y]).1 is Some && pairs@[x].0 < pairs@[y].0 ==> pairs@[x].1->0
                    <= pairs@[y].1->0,
        decreases n - a,
    {
        let (nonce_a, vb_a) = pairs[a];
        if let Some(va) = vb_a {
            let mut b: usize = 0;
            while b < n
                invariant
                    n == pairs@.len(),
                    a < n,
                    b <= n,
                    pairs@[a as int].0 == nonce_a,
                    pairs@[a as int].1 == Some(va),
                    forall|y: int|
                        0 <= y < b && (#[trigger] pairs@[y]).1 is Some && nonce_a < pairs@[y].0
                            ==> va <= pairs@[y].1->0,
                decreases n - b,
            {
                let (nonce_b, vb_b) = pairs[b];
                if let Some(vb) = vb_b {
                    if nonce_a < nonce_b && vb < va {
                        return Err(
                            ApiError::bad_request("group valid_before order must match nonce order"),
                        );
                    }
                }
                b = b + 1;
            }
        }
        a = a + 1;
        proof {
            assert forall|x: int, y: int|
                0 <= x < a && 0 <= y < n && (#[trigger] pairs@[x]).1 is Some && (
            #[trigger] pairs@[y]).1 is Some && pairs@[x].0 < pairs@[y].0 implies pairs@[x].1->0
                <= pairs@[y].1->0 by {}
        }
    }
    Ok(())
}


/// Two prepared transactions address the same (chain, sender, group).
pub open spec fn new_same_group(a: NewTx, b: NewTx) -> bool {
    &&& a.chain_id == b.chain_id
    &&& a.sender@ == b.sender@
    &&& a.group_id is Some
    &&& b.group_id is Some
    &&& a.group_id->0@ == b.group_id->0@
}

/// Within the batch, transactions of one group share a nonce key.
pub open spec fn batch_keys_ok(ps: Seq<NewTx>) -> bool {
    forall|a: int, b: int|
        0 <= a < ps.len() && 0 <= b < ps.len() && new_same_group(
            #[trigger] ps[a],
            #[trigger] ps[b],
        ) ==> ps[a].nonce_key@ == ps[b].nonce_key@
}

/// Within the batch, windows of one group respect the nonce order.
pub open spec fn batch_windows_ok(ps: Seq<NewTx>) -> bool {
    forall|a: int, b: int|
        0 <= a < ps.len() && 0 <= b < ps.len() && new_same_group(#[trigger] ps[a], #[trigger] ps[b])
            && ps[a].nonce < ps[b].nonce && ps[a].valid_before is Some && ps[b].valid_before
            is Some ==> ps[a].valid_before->0 <= ps[b].valid_before->0
}

/// Against the store, each batch transaction of a stored group shares the
/// group's nonce key.
pub open spec fn store_keys_ok(rows: Seq<crate::models::TxRecord>, ps: Seq<NewTx>) -> bool {
    forall|k: int, i: int|
        0 <= k < ps.len() && 0 <= i < rows.len() && (#[trigger] ps[k]).group_id is Some
            && crate::store::in_group(
            #[trigger] rows[i],
            ps[k].chain_id,
            ps[k].sender@,
            ps[k].group_id->0@,
        ) ==> rows[i].nonce_key@ == ps[k].nonce_key@
}

/// Against the store, each batch transaction's window respects the nonce
/// order of its stored group, in both directions.
pub open spec fn store_windows_ok(rows: Seq<crate::models::TxRecord>, ps: Seq<NewTx>) -> bool {
    forall|k: int, i: int|
        0 <= k < ps.len() && 0 <= i < rows.len() && (#[trigger] ps[k]).group_id is Some
            && crate::store::in_group(
            #[trigger] rows[i],
            ps[k].chain_id,
            ps[k].sender@,
            ps[k].group_id->0@,
        ) ==> {
            &&& (rows[i].nonce < ps[k].nonce && rows[i].valid_before is Some && ps[k].valid_before
                is Some ==> rows[i].valid_before->0 <= ps[k].valid_before->0)
            &&& (ps[k].nonce < rows[i].nonce && rows[i].valid_before is Some && ps[k].valid_before
                is Some ==> ps[k].valid_before->0 <= rows[i].valid_before->0)
        }
}

/// The whole batch admission check.
pub open spec fn batch_admissible(rows: Seq<crate::models::TxRecord>, ps: Seq<NewTx>) -> bool {
    batch_keys_ok(ps) && batch_windows_ok(ps) && store_keys_ok(rows, ps) && store_windows_ok(
        rows,
        ps,
    )
}

/// A transaction of the batch was already stored, or occurs earlier in
/// the batch itself.
pub open spec fn known_at(rows: Seq<crate::models::TxRecord>, ps: Seq<NewTx>, k: int) -> bool {
    crate::store::spec_known(rows, ps[k].chain_id, ps[k].tx_hash@) || exists|x: int|
        0 <= x < k && (#[trigger] ps[x]).chain_id == ps[k].chain_id && ps[x].tx_hash@
            == ps[k].tx_hash@
}

fn batch_keys_consistent(prepared: &Vec<NewTx>) -> (r: bool)
    ensures
        r == batch_keys_ok(prepared@),
{
    let m = prepared.len();
    let mut a: usize = 0;
    while a < m
        invariant
            m == prepared@.len(),
            a <= m,
            forall|x: int, y: int|
                0 <= x < a && 0 <= y < m && new_same_group(
                    #[trigger] prepared@[x],
                    #[trigger] prepared@[y],
                ) ==> prepared@[x].nonce_key@ == prepared@[y].nonce_key@,
        decreases m - a,
    {
        let mut b: usize = 0;
        while b < m
            invariant
                m == prepared@.len(),
                a < m,
                b <= m,
                forall|y: int|
                    0 <= y < b && new_same_group(prepared@[a as int], #[trigger] prepared@[y])
                        ==> prepared@[a as int].nonce_key@ == prepared@[y].nonce_key@,
            decreases m - b,
        {
            let same = prepared[a].chain_id == prepared[b].chain_id && crate::models::bytes_eq(
                prepared[a].sender.as_slice(),
                prepared[b].sender.as_slice(),
            ) && (match (&prepared[a].group_id, &prepared[b].group_id) {
                (Some(ga), Some(gb)) => crate::models::bytes_eq(ga.as_slice(), gb.as_slice()),
                _ => false,
            });
            if same {
                if !crate::models::bytes_eq(
                    prepared[a].nonce_key.as_slice(),
                    prepared[b].nonce_key.as_slice(),
                ) {
                    proof {
                        assert(new_same_group(prepared@[a as int], prepared@[b as int]));
                    }
                    return false;
                }
            }
            b = b + 1;
        }
        a = a + 1;
        proof {
            assert forall|x: int, y: int|
                0 <= x < a && 0 <= y < m && new_same_group(
                    #[trigger] prepared@[x],
                    #[trigger] prepared@[y],
                ) implies prepared@[x].nonce_key@ == prepared@[y].nonce_key@ by {}
        }
    }
    true
}

fn batch_windows_consistent(prepared: &Vec<NewTx>) -> (r: bool)
    ensures
        r == batch_windows_ok(prepared@),
{
    let m = prepared.len();
    let mut a: usize = 0;
    while a < m
        invariant
            m == prepared@.len(),
            a <= m,
            forall|x: int, y: int|
                0 <= x < a && 0 <= y < m && new_same_group(
                    #[trigger] prepared@[x],
                    #[trigger] prepared@[y],
                ) && prepared@[x].nonce < prepared@[y].nonce && prepared@[x].valid_before is Some
                    && prepared@[y].valid_before is Some ==> prepared@[x].valid_before->0
                    <= prepared@[y].valid_before->0,
        decreases m - a,
    {
        let mut b: usize = 0;
        while b < m
            invariant
                m == prepared@.len(),
                a < m,
                b <= m,
                forall|y: int|
                    0 <= y < b && new_same_group(prepared@[a as int], #[trigger] prepared@[y])
                        && prepared@[a as int].nonce < prepared@[y].nonce && prepared@[
                        a as int
                    ].valid_before is Some && prepared@[y].valid_before is Some ==> prepared@[
                        a as int
                    ].valid_before->0 <= prepared@[y].valid_before->0,
            decreases m - b,
        {
            let same = prepared[a].chain_id == prepared[b].chain_id && crate::models::bytes_eq(
                prepared[a].sender.as_slice(),
                prepared[b].sender.as_slice(),
            ) && (match (&prepared[a].group_id, &prepared[b].group_id) {
                (Some(ga), Some(gb)) => crate::models::bytes_eq(ga.as_slice(), gb.as_slice()),
                _ => false,
            });
            if same && prepared[a].nonce < prepared[b].nonce {
                match (prepared[a].valid_before, prepared[b].valid_before) {
                    (Some(va), Some(vb)) => {
                        if vb < va {
                            proof {
                                assert(new_same_group(prepared@[a as int], prepared@[b as int]));
                            }
                            return false;
                        }
                    },
                    _ => {},
                }
            }
            b = b + 1;
        }
        a = a + 1;
        proof {
            assert forall|x: int, y: int|
                0 <= x < a && 0 <= y < m && new_same_group(
                    #[trigger] prepared@[x],
                    #[trigger] prepared@[y],
                ) && prepared@[x].nonce < prepared@[y].nonce && prepared@[x].valid_before is Some
                    && prepared@[y].valid_before is Some implies prepared@[x].valid_before->0
                <= prepared@[y].valid_before->0 by {}
        }
    }
    true
}

fn store_group_checks(store: &crate::store::Store, prepared: &Vec<NewTx>) -> (r: (bool, bool))
    ensures
        r.0 == store_keys_ok(store.rows@, prepared@),
        r.1 == store_windows_ok(store.rows@, prepared@),
{
    let m = prepared.len();
    let n = store.rows.len();
    let mut keys_ok = true;
    let mut windows_ok = true;
    let mut k: usize = 0;
    while k < m
        invariant
            m == prepared@.len(),
            n == store.rows@.len(),
            k <= m,
            keys_ok == (forall|x: int, i: int|
                0 <= x < k && 0 <= i < n && (#[trigger] prepared@[x]).group_id is Some
                    && crate::store::in_group(
                    #[trigger] store.rows@[i],
                    prepared@[x].chain_id,
                    prepared@[x].sender@,
                    prepared@[x].group_id->0@,
                ) ==> store.rows@[i].nonce_key@ == prepared@[x].nonce_key@),
            windows_ok == (forall|x: int, i: int|
                0 <= x < k && 0 <= i < n && (#[trigger] prepared@[x]).group_id is Some
                    && crate::store::in_group(
                    #[trigger] store.rows@[i],
                    prepared@[x].chain_id,
                    prepared@[x].sender@,
                    prepared@[x].group_id->0@,
                ) ==> {
                    &&& (store.rows@[i].nonce < prepared@[x].nonce && store.rows@[i].valid_before
                        is Some && prepared@[x].valid_before is Some ==> store.rows@[
                        i
                    ].valid_before->0 <= prepared@[x].valid_before->0)
                    &&& (prepared@[x].nonce < store.rows@[i].nonce && store.rows@[i].valid_before
                        is Some && prepared@[x].valid_before is Some ==> prepared@[
                        x
                    ].valid_before->0 <= store.rows@[i].valid_before->0)
                }),
        decreases m - k,
    {
        let mut i: usize = 0;
        while i < n
            invariant
                m == prepared@.len(),
                n == store.rows@.len(),
                k < m,
                i <= n,
                keys_ok == (forall|x: int, y: int|
                    (0 <= x < k && 0 <= y < n || x == k && 0 <= y < i) && (
                    #[trigger] prepared@[x]).group_id is Some && crate::store::in_group(
                        #[trigger] store.rows@[y],
                        prepared@[x].chain_id,
                        prepared@[x].sender@,
                        prepared@[x].group_id->0@,
                    ) ==> store.rows@[y].nonce_key@ == prepared@[x].nonce_key@),
                windows_ok == (forall|x: int, y: int|
                    (0 <= x < k && 0 <= y < n || x == k && 0 <= y < i) && (
                    #[trigger] prepared@[x]).group_id is Some && crate::store::in_group(
                        #[trigger] store.rows@[y],
                        prepared@[x].chain_id,
                        prepared@[x].sender@,
                        prepared@[x].group_id->0@,
                    ) ==> {
                        &&& (store.rows@[y].nonce < prepared@[x].nonce && store.rows@[
                            y
                        ].valid_before is Some && prepared@[x].valid_before is Some ==> store.rows@[
                            y
                        ].valid_before->0 <= prepared@[x].valid_before->0)
                        &&& (prepared@[x].nonce < store.rows@[y].nonce && store.rows@[
                            y
                        ].valid_before is Some && prepared@[x].valid_before is Some ==> prepared@[
                            x
                        ].valid_before->0 <= store.rows@[y].valid_before->0)
                    }),
            decreases n - i,
        {
            let in_grp = (match &prepared[k].group_id {
                Some(g) => store.rows[i].chain_id == prepared[k].chain_id
                    && crate::models::bytes_eq(
                    store.rows[i].sender.as_slice(),
                    prepared[k].sender.as_slice(),
                ) && (match &store.rows[i].group_id {
                    Some(rg) => crate::models::bytes_eq(rg.as_slice(), g.as_slice()),
                    None => false,
                }),
                None => false,
            });
            if in_grp {
                if !crate::models::bytes_eq(
                    store.rows[i].nonce_key.as_slice(),
                    prepared[k].nonce_key.as_slice(),
                ) {
                    keys_ok = false;
                }
                match (store.rows[i].valid_before, prepared[k].valid_before) {
                    (Some(rv), Some(pv)) => {
                        if store.rows[i].nonce < prepared[k].nonce && rv > pv {
                            windows_ok = false;
                        }
                        if prepared[k].nonce < store.rows[i].nonce && pv > rv {
                            windows_ok = false;
                        }
                    },
                    _ => {},
                }
            }
            i = i + 1;
        }
        k = k + 1;
    }
    (keys_ok, windows_ok)
}

/// Stores one validated batch: enforces the group nonce-key and window
/// discipline against both the batch and the stored rows, inserts each
/// transaction idempotently, and enters each accepted row into the ready
/// zone at its eligibility second. On a validation failure nothing is
/// stored or scheduled.
pub fn store_transactions(
    store: &mut crate::store::Store,
    index: &mut ReadyIndex,
    prepared: &Vec<NewTx>,
    now: i64,
) -> (r: Result<(Vec<crate::models::TxRecord>, Vec<bool>), ApiError>)
    requires
        old(store).wf(),
        old(index).wf(),
        0 <= now,
        forall|k: int| 0 <= k < prepared@.len() ==> (#[trigger] prepared@[k]).wf(),
        old(store).rows@.len() + prepared@.len() < u64::MAX,
        old(store).rows@.len() > 0 ==> old(store).rows@.last().created_at <= now,
    ensures
        final(store).wf(),
        final(index).wf(),
        r is Ok <==> batch_admissible(old(store).rows@, prepared@),
        r is Err ==> *final(store) == *old(store) && *final(index) == *old(index) && r->Err_0.kind
            is BadRequest && (if !batch_keys_ok(prepared@) || !store_keys_ok(
            old(store).rows@,
            prepared@,
        ) {
            r->Err_0.message@ == "group transactions must share the same nonce_key"@
        } else {
            r->Err_0.message@ == "group valid_before order must match nonce order"@
        }),
        terminal_frozen(old(store).rows@, final(store).rows@),
        attempts_monotone(old(store).rows@, final(store).rows@),
        forall|i: int|
            0 <= i < old(store).rows@.len() ==> final(store).rows@[i] == old(store).rows@[i],
        r is Ok ==> {
            let records = r->Ok_0.0;
            let flags = r->Ok_0.1;
            &&& records@.len() == prepared@.len()
            &&& flags@.len() == prepared@.len()
            &&& (forall|k: int|
                0 <= k < prepared@.len() ==> flags@[k] == known_at(
                    old(store).rows@,
                    prepared@,
                    k,
                ))
            &&& (forall|k: int|
                0 <= k < records@.len() ==> {
                    let i = (#[trigger] records@[k]).id as int;
                    &&& 0 <= i < final(store).rows@.len()
                    &&& crate::models::same_record(records@[k], final(store).rows@[i])
                    &&& crate::store::same_key(
                        final(store).rows@[i],
                        prepared@[k].chain_id,
                        prepared@[k].tx_hash@,
                    )
                })
            &&& (forall|k: int|
                0 <= k < records@.len() && !crate::status::spec_is_terminal(
                    (#[trigger] records@[k]).status,
                ) ==> crate::index::zone_contains(
                    final(index).ready.entries@,
                    records@[k].chain_id,
                    records@[k].tx_hash@,
                    ((records@[k].eligible_at as int) / 1000) as i64,
                ))
        },
{
    let keys_batch = batch_keys_consistent(prepared);
    let windows_batch = batch_windows_consistent(prepared);
    let (keys_store, windows_store) = store_group_checks(store, prepared);
    if !keys_batch || !keys_store {
        return Err(ApiError::bad_request("group transactions must share the same nonce_key"));
    }
    if !windows_batch || !windows_store {
        return Err(ApiError::bad_request("group valid_before order must match nonce order"));
    }
    let ghost orig = *store;
    let m = prepared.len();
    let mut records: Vec<crate::models::TxRecord> = Vec::new();
    let mut flags: Vec<bool> = Vec::new();
    let mut k: usize = 0;
    while k < m
        invariant
            orig == *old(store),
            store.wf(),
            orig.wf(),
            m == prepared@.len(),
            k <= m,
            batch_admissible(orig.rows@, prepared@),
            forall|x: int| 0 <= x < m ==> (#[trigger] prepared@[x]).wf(),
            orig.rows@.len() + m < u64::MAX,
            store.rows@.len() > 0 ==> store.rows@.last().created_at <= now,
            orig.rows@.len() <= store.rows@.len() <= orig.rows@.len() + k,
            forall|i: int| 0 <= i < orig.rows@.len() ==> store.rows@[i] == orig.rows@[i],
            forall|i: int|
                orig.rows@.len() <= i < store.rows@.len() ==> exists|x: int|
                    0 <= x < k && crate::store::inserted_row(
                        #[trigger] store.rows@[i],
                        prepared@[x],
                        i as u64,
                        now,
                    ),
            records@.len() == k,
            flags@.len() == k,
            forall|x: int|
                0 <= x < k ==> flags@[x] == known_at(orig.rows@, prepared@, x),
            forall|x: int|
                0 <= x < k ==> {
                    let i = (#[trigger] records@[x]).id as int;
                    &&& 0 <= i < store.rows@.len()
                    &&& crate::models::same_record(records@[x], store.rows@[i])
                    &&& crate::store::same_key(
                        store.rows@[i],
                        prepared@[x].chain_id,
                        prepared@[x].tx_hash@,
                    )
                },
            terminal_frozen(orig.rows@, store.rows@),
            attempts_monotone(orig.rows@, store.rows@),
        decreases m - k,
    {
        let ghost pre = *store;
        proof {
            assert(crate::store::group_compatible(store.rows@, prepared@[k as int])) by {
                assert forall|i: int|
                    0 <= i < store.rows@.len() && prepared@[k as int].group_id is Some
                        && crate::store::in_group(
                        #[trigger] store.rows@[i],
                        prepared@[k as int].chain_id,
                        prepared@[k as int].sender@,
                        prepared@[k as int].group_id->0@,
                    ) implies {
                    &&& store.rows@[i].nonce_key@ == prepared@[k as int].nonce_key@
                    &&& (store.rows@[i].nonce < prepared@[k as int].nonce && store.rows@[
                        i
                    ].valid_before is Some && prepared@[k as int].valid_before is Some
                        ==> store.rows@[i].valid_before->0 <= prepared@[k as int].valid_before->0)
                    &&& (prepared@[k as int].nonce < store.rows@[i].nonce && store.rows@[
                        i
                    ].valid_before is Some && prepared@[k as int].valid_before is Some
                        ==> prepared@[k as int].valid_before->0 <= store.rows@[i].valid_before->0)
                } by {
                    if i < orig.rows@.len() {
                        assert(store.rows@[i] == orig.rows@[i]);
                    } else {
                        let x = choose|x: int|
                            0 <= x < k && crate::store::inserted_row(
                                #[trigger] store.rows@[i],
                                prepared@[x],
                                i as u64,
                                now,
                            );
                        assert(new_same_group(prepared@[x], prepared@[k as int]));
                    }
                }
            }
        }
        let (rec, already_known) = store.insert_tx(&prepared[k], now);
        proof {
            if already_known {
                assert(known_at(orig.rows@, prepared@, k as int)) by {
                    let j = choose|j: int|
                        0 <= j < pre.rows@.len() && crate::store::same_key(
                            #[trigger] pre.rows@[j],
                            prepared@[k as int].chain_id,
                            prepared@[k as int].tx_hash@,
                        );
                    if j < orig.rows@.len() {
                        assert(pre.rows@[j] == orig.rows@[j]);
                        assert(crate::store::same_key(
                            orig.rows@[j],
                            prepared@[k as int].chain_id,
                            prepared@[k as int].tx_hash@,
                        ));
                        assert(crate::store::spec_known(
                            orig.rows@,
                            prepared@[k as int].chain_id,
                            prepared@[k as int].tx_hash@,
                        ));
                    } else {
                        let x = choose|x: int|
                            0 <= x < k && crate::store::inserted_row(
                                #[trigger] pre.rows@[j],
                                prepared@[x],
                                j as u64,
                                now,
                            );
                        assert(prepared@[x].chain_id == prepared@[k as int].chain_id && prepared@[
                            x
                        ].tx_hash@ == prepared@[k as int].tx_hash@);
                    }
                }
            } else {
                assert(!known_at(orig.rows@, prepared@, k as int)) by {
                    if crate::store::spec_known(
                        orig.rows@,
                        prepared@[k as int].chain_id,
                        prepared@[k as int].tx_hash@,
                    ) {
                        let j = choose|j: int|
                            0 <= j < orig.rows@.len() && crate::store::same_key(
                                #[trigger] orig.rows@[j],
                                prepared@[k as int].chain_id,
                                prepared@[k as int].tx_hash@,
                            );
                        assert(pre.rows@[j] == orig.rows@[j]);
                        assert(crate::store::spec_known(
                            pre.rows@,
                            prepared@[k as int].chain_id,
                            prepared@[k as int].tx_hash@,
                        ));
                    }
                    if exists|x: int|
                        0 <= x < k && (#[trigger] prepared@[x]).chain_id == prepared@[
                            k as int
                        ].chain_id && prepared@[x].tx_hash@ == prepared@[k as int].tx_hash@ {
                        let x = choose|x: int|
                            0 <= x < k && (#[trigger] prepared@[x]).chain_id == prepared@[
                                k as int
                            ].chain_id && prepared@[x].tx_hash@ == prepared@[k as int].tx_hash@;
                        let i = records@[x].id as int;
                        assert(crate::store::same_key(
                            pre.rows@[i],
                            prepared@[k as int].chain_id,
                            prepared@[k as int].tx_hash@,
                        ));
                        assert(crate::store::spec_known(
                            pre.rows@,
                            prepared@[k as int].chain_id,
                            prepared@[k as int].tx_hash@,
                        ));
                    }
                }
            }
        }
        flags.push(already_known);
        records.push(rec);
        k = k + 1;
        proof {
            assert forall|x: int| 0 <= x < k implies {
                let i = (#[trigger] records@[x]).id as int;
                &&& 0 <= i < store.rows@.len()
                &&& crate::models::same_record(records@[x], store.rows@[i])
                &&& crate::store::same_key(
                    store.rows@[i],
                    prepared@[x].chain_id,
                    prepared@[x].tx_hash@,
                )
            } by {
                if x < k - 1 {
                    let i = records@[x].id as int;
                    assert(records@[x] == records@.drop_last()[x]);
                    assert(store.rows@[i] == pre.rows@[i]);
                }
            }
            assert forall|i: int|
                orig.rows@.len() <= i < store.rows@.len() implies exists|x: int|
                0 <= x < k && crate::store::inserted_row(
                    #[trigger] store.rows@[i],
                    prepared@[x],
                    i as u64,
                    now,
                ) by {
                if i < pre.rows@.len() {
                    let x = choose|x: int|
                        0 <= x < k - 1 && crate::store::inserted_row(
                            #[trigger] pre.rows@[i],
                            prepared@[x],
                            i as u64,
                            now,
                        );
                    assert(store.rows@[i] == pre.rows@[i]);
                } else {
                    assert(crate::store::inserted_row(
                        store.rows@[i],
                        prepared@[k - 1],
                        i as u64,
                        now,
                    ));
                }
            }
        }
    }
    let total = records.len();
    let mut s: usize = 0;
    while s < total
        invariant
            store.wf(),
            index.wf(),
            total == records@.len(),
            total == prepared@.len(),
            s <= total,
            forall|x: int|
                0 <= x < total ==> {
                    let i = (#[trigger] records@[x]).id as int;
                    &&& 0 <= i < store.rows@.len()
                    &&& crate::models::same_record(records@[x], store.rows@[i])
                    &&& crate::store::same_key(
                        store.rows@[i],
                        prepared@[x].chain_id,
                        prepared@[x].tx_hash@,
                    )
                },
            forall|x: int|
                0 <= x < s && !crate::status::spec_is_terminal((#[trigger] records@[x]).status)
                    ==> crate::index::zone_contains(
                    index.ready.entries@,
                    records@[x].chain_id,
                    records@[x].tx_hash@,
                    ((records@[x].eligible_at as int) / 1000) as i64,
                ),
        decreases total - s,
    {
        let ghost pre_index = *index;
        if !records[s].status.is_terminal() {
            proof {
                let i = records@[s as int].id as int;
                assert(store.rows@[i].wf());
                assert(records@[s as int].eligible_at >= 0);
            }
            let score = (((records[s].eligible_at) as u64) / 1000) as i64;
            index.add_ready(records[s].chain_id, records[s].tx_hash.as_slice(), score);
        }
        s = s + 1;
        proof {
            assert forall|x: int|
                0 <= x < s && !crate::status::spec_is_terminal((#[trigger] records@[x]).status)
                implies crate::index::zone_contains(
                index.ready.entries@,
                records@[x].chain_id,
                records@[x].tx_hash@,
                ((records@[x].eligible_at as int) / 1000) as i64,
            ) by {
                if x < s - 1 {
                    if records@[x].chain_id == records@[s - 1].chain_id && records@[x].tx_hash@
                        == records@[s - 1].tx_hash@ {
                        let ia = records@[x].id as int;
                        let ib = records@[s - 1].id as int;
                        assert(crate::store::same_key(store.rows@[ia], records@[s - 1].chain_id,
                            records@[s - 1].tx_hash@));
                        if ia != ib {
                            assert(!crate::store::unique_keys(store.rows@));
                        }
                        assert(records@[x].eligible_at == records@[s - 1].eligible_at);
                    }
                }
            }
        }
    }
    Ok((records, flags))
}


/// The group cancel entry point: refuses to run without a verified
/// authorization, refuses an unknown group, and otherwise cancels every
/// non-terminal row of the group and drops each canceled hash from both
/// index zones.
pub fn cancel_group_authorized(
    store: &mut crate::store::Store,
    index: &mut ReadyIndex,
    sender: &[u8],
    group_id: &[u8],
    auth_ok: bool,
    now: i64,
) -> (r: Result<Vec<crate::models::TxRecord>, ApiError>)
    requires
        old(store).wf(),
        old(index).wf(),
    ensures
        final(store).wf(),
        final(index).wf(),
        !auth_ok ==> r is Err && r->Err_0.kind is Unauthorized && *final(store) == *old(store)
            && *final(index) == *old(index),
        auth_ok && !(exists|j: int|
            0 <= j < old(store).rows@.len() && (#[trigger] old(store).rows@[j]).sender@ == sender@
                && old(store).rows@[j].group_id is Some && old(store).rows@[j].group_id->0@
                == group_id@) ==> r is Err && r->Err_0.kind is NotFound && r->Err_0.message@
            == "group not found"@ && *final(store) == *old(store) && *final(index) == *old(index),
        auth_ok && (exists|j: int|
            0 <= j < old(store).rows@.len() && (#[trigger] old(store).rows@[j]).sender@ == sender@
                && old(store).rows@[j].group_id is Some && old(store).rows@[j].group_id->0@
                == group_id@) ==> r is Ok,
        r is Ok ==> {
            let canceled = r->Ok_0;
            &&& (forall|i: int|
                0 <= i < old(store).rows@.len() && crate::store::cancel_target(
                    #[trigger] old(store).rows@[i],
                    sender@,
                    group_id@,
                ) ==> crate::store::canceled_row(
                    final(store).rows@[i],
                    old(store).rows@[i],
                    now,
                ))
            &&& (forall|i: int|
                0 <= i < old(store).rows@.len() && !crate::store::cancel_target(
                    #[trigger] old(store).rows@[i],
                    sender@,
                    group_id@,
                ) ==> final(store).rows@[i] == old(store).rows@[i])
            &&& (forall|k: int|
                0 <= k < canceled@.len() ==> {
                    let i = (#[trigger] canceled@[k]).id as int;
                    &&& 0 <= i < old(store).rows@.len()
                    &&& crate::store::cancel_target(old(store).rows@[i], sender@, group_id@)
                    &&& crate::models::same_record(canceled@[k], final(store).rows@[i])
                })
            &&& (forall|i: int|
                0 <= i < old(store).rows@.len() && crate::store::cancel_target(
                    #[trigger] old(store).rows@[i],
                    sender@,
                    group_id@,
                ) ==> crate::store::id_in(canceled@, i))
            &&& (forall|k: int|
                0 <= k < canceled@.len() ==> !crate::index::zone_has(
                    final(index).ready.entries@,
                    (#[trigger] canceled@[k]).chain_id,
                    canceled@[k].tx_hash@,
                ) && !crate::index::zone_has(
                    final(index).retry.entries@,
                    canceled@[k].chain_id,
                    canceled@[k].tx_hash@,
                ))
        },
        terminal_frozen(old(store).rows@, final(store).rows@),
        attempts_monotone(old(store).rows@, final(store).rows@),
{
    if !auth_ok {
        return Err(ApiError::unauthorized("cancel not authorized"));
    }
    if !store.has_group_rows(sender, group_id) {
        return Err(ApiError::not_found("group not found"));
    }
    let ghost mid_store: crate::store::Store;
    let canceled = store.cancel_group(sender, group_id, now);
    proof {
        mid_store = *store;
    }
    let total = canceled.len();
    let mut k: usize = 0;
    while k < total
        invariant
            index.wf(),
            store.wf(),
            *store == mid_store,
            total == canceled@.len(),
            k <= total,
            forall|x1: int, x2: int|
                0 <= x1 < x2 < canceled@.len() ==> canceled@[x1].id < canceled@[x2].id,
            forall|x: int|
                0 <= x < canceled@.len() ==> {
                    let i = (#[trigger] canceled@[x]).id as int;
                    &&& 0 <= i < store.rows@.len()
                    &&& crate::models::same_record(canceled@[x], store.rows@[i])
                },
            forall|x: int|
                0 <= x < k ==> !crate::index::zone_has(
                    index.ready.entries@,
                    (#[trigger] canceled@[x]).chain_id,
                    canceled@[x].tx_hash@,
                ) && !crate::index::zone_has(
                    index.retry.entries@,
                    canceled@[x].chain_id,
                    canceled@[x].tx_hash@,
                ),
        decreases total - k,
    {
        let ghost pre_index = *index;
        index.remove(canceled[k].chain_id, canceled[k].tx_hash.as_slice());
        k = k + 1;
        proof {
            assert forall|x: int|
                0 <= x < k implies !crate::index::zone_has(
                index.ready.entries@,
                (#[trigger] canceled@[x]).chain_id,
                canceled@[x].tx_hash@,
            ) && !crate::index::zone_has(
                index.retry.entries@,
                canceled@[x].chain_id,
                canceled@[x].tx_hash@,
            ) by {
                if x < k - 1 {
                    let ia = canceled@[x].id as int;
                    let ib = canceled@[k - 1].id as int;
                    assert(ia != ib);
                    assert(!crate::store::same_key(store.rows@[ia], store.rows@[ib].chain_id,
                        store.rows@[ib].tx_hash@));
                    assert(!(canceled@[x].chain_id == canceled@[k - 1].chain_id && canceled@[
                        x
                    ].tx_hash@ == canceled@[k - 1].tx_hash@));
                }
            }
        }
    }
    Ok(canceled)
}

/// What canceling a group would do, computed for display: the lane's
/// rendered nonce key, the distinct nonces of its members in ascending
/// order, and whether the observed on-chain nonce already supersedes the
/// whole group.
#[derive(Debug)]
pub struct CancelPlan {
    pub nonce_key: String,
    pub nonces: Vec<u64>,
    pub already_invalidated: bool,
}

/// Some group member carries this nonce.
pub open spec fn nonce_of_some(records: Seq<crate::models::TxRecord>, v: u64) -> bool {
    exists|j: int| 0 <= j < records.len() && (#[trigger] records[j]).nonce == v
}

/// The plan lists this nonce.
pub open spec fn nonce_listed(ns: Seq<u64>, v: u64) -> bool {
    exists|k: int| 0 <= k < ns.len() && ns[k] == v
}

/// Builds the cancel plan of one group from its rows and the observed
/// on-chain nonce of its lane, where one was read.
#[verifier::rlimit(50)]
pub fn build_cancel_plan(
    records: &Vec<crate::models::TxRecord>,
    current_nonce: Option<u64>,
) -> (r: Result<CancelPlan, ApiError>)
    ensures
        records@.len() == 0 ==> r is Err && r->Err_0.kind is Internal && r->Err_0.message@
            == "missing nonce key"@,
        records@.len() > 0 && (exists|a: int, b: int|
            0 <= a < records@.len() && 0 <= b < records@.len() && (
            #[trigger] records@[a]).nonce_key@ != (#[trigger] records@[b]).nonce_key@) ==> r is Err
            && r->Err_0.kind is Internal && r->Err_0.message@ == "group has multiple nonce keys"@,
        r is Ok <==> records@.len() > 0 && (forall|a: int, b: int|
            0 <= a < records@.len() && 0 <= b < records@.len() ==> (
            #[trigger] records@[a]).nonce_key@ == (#[trigger] records@[b]).nonce_key@),
        r is Ok ==> r->Ok_0.nonces@.len() > 0,
        r is Ok ==> (forall|k1: int, k2: int|
            0 <= k1 < k2 < r->Ok_0.nonces@.len() ==> r->Ok_0.nonces@[k1] < r->Ok_0.nonces@[k2]),
        r is Ok ==> (forall|k: int|
            0 <= k < r->Ok_0.nonces@.len() ==> nonce_of_some(
                records@,
                #[trigger] r->Ok_0.nonces@[k],
            )),
        r is Ok ==> (forall|j: int|
            0 <= j < records@.len() ==> nonce_listed(
                r->Ok_0.nonces@,
                (#[trigger] records@[j]).nonce,
            )),
        r is Ok ==> r->Ok_0.already_invalidated == (current_nonce is Some && current_nonce->0
            > r->Ok_0.nonces@.last()),
        r is Ok && spec_is_random_nonce_key(records@[0].nonce_key@) ==> r->Ok_0.nonce_key@
            == "random"@,
        r is Ok && !spec_is_random_nonce_key(records@[0].nonce_key@) && records@[0].nonce_key@.len()
            <= 32 ==> r->Ok_0.nonce_key@ == seq!['0', 'x'] + min_hex_chars(records@[0].nonce_key@),
{
    if records.len() == 0 {
        return Err(ApiError::internal("missing nonce key"));
    }
    let n = records.len();
    let mut j: usize = 1;
    while j < n
        invariant
            n == records@.len(),
            1 <= j <= n,
            forall|x: int|
                0 <= x < j ==> (#[trigger] records@[x]).nonce_key@ == records@[0].nonce_key@,
        decreases n - j,
    {
        if !crate::models::bytes_eq(
            records[j].nonce_key.as_slice(),
            records[0].nonce_key.as_slice(),
        ) {
            return Err(ApiError::internal("group has multiple nonce keys"));
        }
        j = j + 1;
    }
    let mut nonces: Vec<u64> = Vec::new();
    let mut i: usize = 0;
    while i < n
        invariant
            n == records@.len(),
            i <= n,
            forall|k1: int, k2: int|
                0 <= k1 < k2 < nonces@.len() ==> nonces@[k1] < nonces@[k2],
            forall|k: int|
                0 <= k < nonces@.len() ==> nonce_of_some(records@, #[trigger] nonces@[k]),
            forall|x: int|
                0 <= x < i ==> nonce_listed(nonces@, (#[trigger] records@[x]).nonce),
        decreases n - i,
    {
        let v = records[i].nonce;
        let m = nonces.len();
        let mut pos: usize = 0;
        while pos < m && nonces[pos] < v
            invariant
                m == nonces@.len(),
                pos <= m,
                forall|k: int| 0 <= k < pos ==> nonces@[k] < v,
                forall|k1: int, k2: int|
                    0 <= k1 < k2 < nonces@.len() ==> nonces@[k1] < nonces@[k2],
            decreases m - pos,
        {
            pos = pos + 1;
        }
        let ghost pre_nonces = nonces@;
        let present = pos < m && nonces[pos] == v;
        if !present {
            nonces.insert(pos, v);
            proof {
                assert(nonces@ == pre_nonces.insert(pos as int, v));
                assert(forall|k: int| 0 <= k < pos ==> nonces@[k] == pre_nonces[k]);
                assert(nonces@[pos as int] == v);
                assert(forall|k: int|
                    pos < k < nonces@.len() ==> nonces@[k] == pre_nonces[k - 1]);
                assert forall|k1: int, k2: int|
                    0 <= k1 < k2 < nonces@.len() implies nonces@[k1] < nonces@[k2] by {
                    if k1 == pos as int {
                        assert(pre_nonces[k2 - 1] != v);
                        assert(pre_nonces[k2 - 1] >= v) by {
                            if k2 - 1 < pos {
                                assert(pre_nonces[k2 - 1] < v);
                            }
                        }
                    } else if k2 == pos as int {
                        assert(nonces@[k1] == pre_nonces[k1] && pre_nonces[k1] < v);
                    }
                }
                assert forall|k: int|
                    0 <= k < nonces@.len() implies nonce_of_some(records@, #[trigger] nonces@[k])
                    by {
                    if k < pos {
                        assert(nonces@[k] == pre_nonces[k]);
                    } else if k == pos {
                        assert(records@[i as int].nonce == v);
                    } else {
                        assert(nonces@[k] == pre_nonces[k - 1]);
                    }
                }
            }
        }
        i = i + 1;
        proof {
            assert forall|x: int|
                0 <= x < i implies nonce_listed(nonces@, (#[trigger] records@[x]).nonce) by {
                if x < i - 1 {
                    let k = choose|k: int|
                        0 <= k < pre_nonces.len() && pre_nonces[k] == records@[x].nonce;
                    if present {
                        assert(nonces@[k] == pre_nonces[k]);
                    } else {
                        if k < pos as int {
                            assert(nonces@[k] == pre_nonces[k]);
                        } else {
                            assert(nonces@[k + 1] == pre_nonces[k]);
                        }
                    }
                } else {
                    if present {
                        assert(nonces@[pos as int] == v);
                    } else {
                        assert(nonces@[pos as int] == v);
                    }
                }
            }
        }
    }
    let nonce_key = u256_bytes_to_hex(records[0].nonce_key.as_slice());
    let max_nonce = nonces[nonces.len() - 1];
    proof {
        assert(nonce_listed(nonces@, records@[0].nonce));
    }
    let already_invalidated = match current_nonce {
        Some(c) => c > max_nonce,
        None => false,
    };
    Ok(CancelPlan { nonce_key, nonces, already_invalidated })
}

} // verus!
