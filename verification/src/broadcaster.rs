//! The broadcaster's pure half: classifying per-endpoint responses and
//! aggregating them into one outcome, plus the endpoint rotation plan.
//! Issuing the calls themselves is I/O and stays outside the library.

use vstd::prelude::*;
use crate::text::ascii_string;

verus! {

/// `needle` occurs in `hay` at position `k`.
pub open spec fn match_at(hay: Seq<char>, needle: Seq<char>, k: int) -> bool {
    &&& 0 <= k
    &&& k + needle.len() <= hay.len()
    &&& hay.subrange(k, k + needle.len()) == needle
}

/// `needle` occurs somewhere in `hay`.
pub open spec fn spec_contains(hay: Seq<char>, needle: Seq<char>) -> bool {
    exists|k: int| #[trigger] match_at(hay, needle, k)
}

/// Substring search.
pub fn str_contains(hay: &str, needle: &str) -> (r: bool)
    ensures
        r == spec_contains(hay@, needle@),
{
    let n = hay.unicode_len();
    let m = needle.unicode_len();
    if m > n {
        proof {
            assert forall|k: int| !#[trigger] match_at(hay@, needle@, k) by {}
        }
        return false;
    }
    let mut k: usize = 0;
    while k <= n - m
        invariant
            m <= n,
            n == hay@.len(),
            m == needle@.len(),
            k <= n - m + 1,
            forall|x: int| 0 <= x < k ==> !#[trigger] match_at(hay@, needle@, x),
        decreases n - m + 1 - k,
    {
        let mut j: usize = 0;
        while j < m && hay.get_char(k + j) == needle.get_char(j)
            invariant
                m <= n,
                n == hay@.len(),
                m == needle@.len(),
                k <= n - m,
                j <= m,
                forall|y: int| 0 <= y < j ==> hay@[k + y] == needle@[y],
            decreases m - j,
        {
            j = j + 1;
        }
        if j == m {
            proof {
                assert(hay@.subrange(k as int, k as int + m as int) =~= needle@);
                assert(match_at(hay@, needle@, k as int));
            }
            return true;
        }
        proof {
            assert(!match_at(hay@, needle@, k as int)) by {
                if match_at(hay@, needle@, k as int) {
                    assert(hay@.subrange(k as int, k as int + m as int)[j as int]
                        == needle@[j as int]);
                }
            }
        }
        k = k + 1;
    }
    proof {
        assert forall|x: int| !#[trigger] match_at(hay@, needle@, x) by {
            if match_at(hay@, needle@, x) {
                assert(0 <= x < k);
            }
        }
    }
    false
}

/// What a lowercased string reads; the value depends on the characters of
/// the input alone.
pub uninterp spec fn lower_of(s: Seq<char>) -> Seq<char>;

/// Relies on `str::to_lowercase`: the result is a pure function of the
/// input characters.
#[verifier::external_body]
fn lowercase(s: &str) -> (r: String)
    ensures
        r@ == lower_of(s@),
{
    s.to_lowercase()
}

/// How one endpoint's error text classifies.
#[derive(Debug, Clone, Copy, PartialEq, Eq, Structural)]
pub enum ErrorClass {
    /// The endpoint already knows the transaction; counts as accepted.
    AlreadyKnown,
    /// The transaction can never be included; non-recoverable.
    Invalid,
    /// Anything else, including timeouts.
    Retry,
}

/// The classification of an already-lowercased message.
pub open spec fn spec_classify(lowered: Seq<char>) -> ErrorClass {
    if spec_contains(lowered, "already known"@) || spec_contains(lowered, "known transaction"@)
        || spec_contains(lowered, "already imported"@) || spec_contains(
        lowered,
        "already exists"@,
    ) {
        ErrorClass::AlreadyKnown
    } else if spec_contains(lowered, "invalid"@) || spec_contains(lowered, "malformed"@)
        || spec_contains(lowered, "signature"@) || spec_contains(lowered, "fee payer"@)
        || spec_contains(lowered, "expired"@) || spec_contains(lowered, "nonce key"@) {
        ErrorClass::Invalid
    } else {
        ErrorClass::Retry
    }
}

/// Classifies an already-lowercased message by its tell-tale substrings.
pub fn classify_lowered(lowered: &str) -> (r: ErrorClass)
    ensures
        r == spec_classify(lowered@),
{
    if str_contains(lowered, "already known") || str_contains(lowered, "known transaction")
        || str_contains(lowered, "already imported") || str_contains(lowered, "already exists") {
        ErrorClass::AlreadyKnown
    } else if str_contains(lowered, "invalid") || str_contains(lowered, "malformed")
        || str_contains(lowered, "signature") || str_contains(lowered, "fee payer")
        || str_contains(lowered, "expired") || str_contains(lowered, "nonce key") {
        ErrorClass::Invalid
    } else {
        ErrorClass::Retry
    }
}

/// Classifies an endpoint's error message: the message is lowercased and
/// searched for the known already-known and invalidity phrases; everything
/// else is retryable.
pub fn classify_error(message: &str) -> (r: ErrorClass)
    ensures
        r == spec_classify(lower_of(message@)),
{
    let lowered = lowercase(message);
    classify_lowered(lowered.as_str())
}

/// The outcome of one broadcast attempt across the fan-out.
#[derive(Debug)]
pub enum BroadcastOutcome {
    /// Some endpoint took the transaction (or already knew it). The error
    /// field carries the first informational text, if any.
    Accepted { error: Option<String> },
    /// No acceptance, nothing fatal: try again later.
    Retry { error: String },
    /// Some endpoint proved the transaction can never be included.
    Invalid { error: String },
}

/// What one endpoint answered to a send.
#[derive(Debug)]
pub enum EndpointReply {
    /// The call returned a pending-transaction handle.
    Sent,
    /// The call returned an error with this text.
    Rejected { message: String },
    /// The call did not return within the configured timeout.
    TimedOut,
}

/// Whether a sequence of replies counts as accepted: some endpoint took
/// the bytes, or already knew them.
pub open spec fn spec_accepted(rs: Seq<EndpointReply>) -> bool {
    exists|i: int|
        0 <= i < rs.len() && match #[trigger] rs[i] {
            EndpointReply::Sent => true,
            EndpointReply::Rejected { message } => spec_classify(lower_of(message@))
                == ErrorClass::AlreadyKnown,
            EndpointReply::TimedOut => false,
        }
}

/// The non-fatal error texts of the replies, in order: rejected texts that
/// did not classify as invalid, and a synthetic text for each timeout.
pub open spec fn spec_retry_errs(rs: Seq<EndpointReply>) -> Seq<Seq<char>>
    decreases rs.len(),
{
    if rs.len() == 0 {
        Seq::empty()
    } else {
        spec_retry_errs(rs.drop_last()) + (match rs.last() {
            EndpointReply::Sent => Seq::<Seq<char>>::empty(),
            EndpointReply::Rejected { message } => {
                if spec_classify(lower_of(message@)) == ErrorClass::Invalid {
                    Seq::<Seq<char>>::empty()
                } else {
                    seq![message@]
                }
            },
            EndpointReply::TimedOut => seq!["broadcast timeout"@],
        })
    }
}

/// The invalidity texts of the replies, in order.
pub open spec fn spec_invalid_errs(rs: Seq<EndpointReply>) -> Seq<Seq<char>>
    decreases rs.len(),
{
    if rs.len() == 0 {
        Seq::empty()
    } else {
        spec_invalid_errs(rs.drop_last()) + (match rs.last() {
            EndpointReply::Rejected { message } => {
                if spec_classify(lower_of(message@)) == ErrorClass::Invalid {
                    seq![message@]
                } else {
                    Seq::<Seq<char>>::empty()
                }
            },
            _ => Seq::<Seq<char>>::empty(),
        })
    }
}

/// Error texts joined with `"; "`.
pub open spec fn spec_join_semi(l: Seq<Seq<char>>) -> Seq<char>
    decreases l.len(),
{
    if l.len() == 0 {
        Seq::empty()
    } else if l.len() == 1 {
        l[0]
    } else {
        spec_join_semi(l.drop_last()) + "; "@ + l.last()
    }
}

/// Joins error texts with `"; "`.
pub fn join_semi(errs: &Vec<String>) -> (r: String)
    ensures
        r@ == spec_join_semi(errs@.map_values(|s: String| s@)),
{
    let mut out = String::new();
    let mut i: usize = 0;
    while i < errs.len()
        invariant
            i <= errs@.len(),
            out@ == spec_join_semi(errs@.take(i as int).map_values(|s: String| s@)),
        decreases errs@.len() - i,
    {
        if i > 0 {
            out.append("; ");
        }
        out.append(errs[i].as_str());
        i = i + 1;
        proof {
            let all = errs@.map_values(|s: String| s@);
            assert(errs@.take(i as int).map_values(|s: String| s@) =~= all.take(i as int));
            assert(errs@.take(i - 1).map_values(|s: String| s@) =~= all.take(i - 1));
            assert(all.take(i as int).drop_last() =~= all.take(i - 1));
            assert(all.take(i as int).last() == errs@[i - 1]@);
        }
    }
    proof {
        assert(errs@.take(errs@.len() as int) =~= errs@);
    }
    out
}

/// The outcome the broadcaster reports when a chain has no endpoints.
pub fn outcome_no_endpoints() -> (r: BroadcastOutcome)
    ensures
        r matches BroadcastOutcome::Retry { error } && error@ == "no rpc endpoints"@,
{
    BroadcastOutcome::Retry { error: String::from_str("no rpc endpoints") }
}

/// The endpoints one attempt fans out to: `min(max(fanout, 1), total)`
/// indices starting at `attempt % total`, wrapping around.
pub fn plan_broadcast(total: usize, fanout: usize, attempt: u32) -> (r: Vec<usize>)
    requires
        total > 0,
    ensures
        r@.len() == if fanout == 0 {
            1int
        } else if fanout > total {
            total as int
        } else {
            fanout as int
        },
        forall|i: int|
            0 <= i < r@.len() ==> r@[i] == ((attempt as int) % (total as int) + i) % (total as int),
{
    let width: usize = if fanout == 0 {
        1
    } else if fanout > total {
        total
    } else {
        fanout
    };
    let start: usize = (attempt as usize) % total;
    let mut out: Vec<usize> = Vec::new();
    let mut i: usize = 0;
    while i < width
        invariant
            total > 0,
            start == (attempt as int) % (total as int),
            start < total,
            out@.len() == i <= width <= total,
            forall|j: int|
                0 <= j < i ==> out@[j] == ((attempt as int) % (total as int) + j) % (total as int),
        decreases width - i,
    {
        let idx = if i < total - start {
            start + i
        } else {
            i - (total - start)
        };
        proof {
            let s = start as int;
            let x = i as int;
            let t = total as int;
            if x < t - s {
                vstd::arithmetic::div_mod::lemma_small_mod((s + x) as nat, t as nat);
            } else {
                vstd::arithmetic::div_mod::lemma_mod_sub_multiples_vanish(s + x, t);
                vstd::arithmetic::div_mod::lemma_small_mod((s + x - t) as nat, t as nat);
            }
            assert(idx as int == (s + x) % t);
        }
        out.push(idx);
        i = i + 1;
    }
    out
}

/// Aggregates per-endpoint replies into one outcome: any acceptance wins
/// and carries the first informational text; otherwise any invalidity
/// proof wins with the joined invalid texts; otherwise retry with the
/// joined retryable texts.
pub fn aggregate_broadcast(replies: &Vec<EndpointReply>) -> (r: BroadcastOutcome)
    ensures
        spec_accepted(replies@) ==> (r matches BroadcastOutcome::Accepted { error } && {
            let texts = spec_retry_errs(replies@);
            &&& (error is Some <==> texts.len() > 0)
            &&& (error is Some ==> error->0@ == texts[0])
        }),
        !spec_accepted(replies@) && spec_invalid_errs(replies@).len() > 0 ==> (
        r matches BroadcastOutcome::Invalid { error } && error@ == spec_join_semi(
            spec_invalid_errs(replies@),
        )),
        !spec_accepted(replies@) && spec_invalid_errs(replies@).len() == 0 ==> (
        r matches BroadcastOutcome::Retry { error } && error@ == spec_join_semi(
            spec_retry_errs(replies@),
        )),
{
    let mut errors: Vec<String> = Vec::new();
    let mut invalid_errors: Vec<String> = Vec::new();
    let mut accepted = false;
    let mut i: usize = 0;
    while i < replies.len()
        invariant
            i <= replies@.len(),
            accepted == spec_accepted(replies@.take(i as int)),
            errors@.map_values(|s: String| s@) =~= spec_retry_errs(replies@.take(i as int)),
            invalid_errors@.map_values(|s: String| s@) =~= spec_invalid_errs(
                replies@.take(i as int),
            ),
        decreases replies@.len() - i,
    {
        let ghost pre = replies@.take(i as int);
        match &replies[i] {
            EndpointReply::Sent => {
                accepted = true;
            },
            EndpointReply::Rejected { message } => {
                let class = classify_error(message.as_str());
                match class {
                    ErrorClass::AlreadyKnown => {
                        accepted = true;
                        errors.push(message.clone());
                    },
                    ErrorClass::Invalid => {
                        invalid_errors.push(message.clone());
                    },
                    ErrorClass::Retry => {
                        errors.push(message.clone());
                    },
                }
            },
            EndpointReply::TimedOut => {
                errors.push(String::from_str("broadcast timeout"));
            },
        }
        i = i + 1;
        proof {
            let cur = replies@.take(i as int);
            assert(cur.drop_last() =~= pre);
            assert(cur.last() == replies@[i - 1]);
            assert(spec_accepted(cur) == (spec_accepted(pre) || match replies@[i - 1] {
                EndpointReply::Sent => true,
                EndpointReply::Rejected { message } => spec_classify(lower_of(message@))
                    == ErrorClass::AlreadyKnown,
                EndpointReply::TimedOut => false,
            })) by {
                if spec_accepted(pre) {
                    let w = choose|w: int|
                        0 <= w < pre.len() && match #[trigger] pre[w] {
                            EndpointReply::Sent => true,
                            EndpointReply::Rejected { message } => spec_classify(lower_of(message@))
                                == ErrorClass::AlreadyKnown,
                            EndpointReply::TimedOut => false,
                        };
                    assert(cur[w] == pre[w]);
                }
                if spec_accepted(cur) {
                    let w = choose|w: int|
                        0 <= w < cur.len() && match #[trigger] cur[w] {
                            EndpointReply::Sent => true,
                            EndpointReply::Rejected { message } => spec_classify(lower_of(message@))
                                == ErrorClass::AlreadyKnown,
                            EndpointReply::TimedOut => false,
                        };
                    if w < pre.len() {
                        assert(pre[w] == cur[w]);
                    }
                }
            }
            assert(errors@.map_values(|s: String| s@) =~= spec_retry_errs(cur));
            assert(invalid_errors@.map_values(|s: String| s@) =~= spec_invalid_errs(cur));
        }
    }
    proof {
        assert(replies@.take(replies@.len() as int) =~= replies@);
    }
    if accepted {
        let error: Option<String> = if errors.len() > 0 {
            Some(errors[0].clone())
        } else {
            None
        };
        proof {
            if errors@.len() > 0 {
                assert(errors@.map_values(|s: String| s@)[0] == errors@[0]@);
            }
        }
        BroadcastOutcome::Accepted { error }
    } else if invalid_errors.len() > 0 {
        BroadcastOutcome::Invalid { error: join_semi(&invalid_errors) }
    } else {
        BroadcastOutcome::Retry { error: join_semi(&errors) }
    }
}

} // verus!
