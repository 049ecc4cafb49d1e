//! The transaction status state machine: states, their wire names, and
//! which of them are terminal (absorbing).

use vstd::prelude::*;

verus! {

/// The states a transaction record moves through.
///
/// `Executed`, `Expired`, `Invalid`, `StaleByNonce` and `CanceledLocally`
/// are terminal: no row ever transitions out of them.
#[derive(Clone, Copy, Debug, PartialEq, Eq, Structural)]
pub enum TxStatus {
    Queued,
    Broadcasting,
    RetryScheduled,
    Executed,
    Expired,
    Invalid,
    StaleByNonce,
    CanceledLocally,
}

/// Whether a status is terminal.
pub open spec fn spec_is_terminal(s: TxStatus) -> bool {
    match s {
        TxStatus::Queued => false,
        TxStatus::Broadcasting => false,
        TxStatus::RetryScheduled => false,
        TxStatus::Executed => true,
        TxStatus::Expired => true,
        TxStatus::Invalid => true,
        TxStatus::StaleByNonce => true,
        TxStatus::CanceledLocally => true,
    }
}

/// The wire name of a status, as stored and served.
pub open spec fn spec_status_name(s: TxStatus) -> Seq<char> {
    match s {
        TxStatus::Queued => "queued"@,
        TxStatus::Broadcasting => "broadcasting"@,
        TxStatus::RetryScheduled => "retry_scheduled"@,
        TxStatus::Executed => "executed"@,
        TxStatus::Expired => "expired"@,
        TxStatus::Invalid => "invalid"@,
        TxStatus::StaleByNonce => "stale_by_nonce"@,
        TxStatus::CanceledLocally => "canceled_locally"@,
    }
}

/// The status a wire name denotes, if any.
pub open spec fn spec_status_parse(s: Seq<char>) -> Option<TxStatus> {
    if s == "queued"@ {
        Some(TxStatus::Queued)
    } else if s == "broadcasting"@ {
        Some(TxStatus::Broadcasting)
    } else if s == "retry_scheduled"@ {
        Some(TxStatus::RetryScheduled)
    } else if s == "executed"@ {
        Some(TxStatus::Executed)
    } else if s == "expired"@ {
        Some(TxStatus::Expired)
    } else if s == "invalid"@ {
        Some(TxStatus::Invalid)
    } else if s == "stale_by_nonce"@ {
        Some(TxStatus::StaleByNonce)
    } else if s == "canceled_locally"@ {
        Some(TxStatus::CanceledLocally)
    } else {
        None
    }
}

/// Exact string equality.
pub fn str_eq(a: &str, b: &str) -> (r: bool)
    ensures
        r == (a@ == b@),
{
    let sa = String::from_str(a);
    let sb = String::from_str(b);
    sa == sb
}

impl TxStatus {
    /// Whether this status is terminal.
    pub fn is_terminal(&self) -> (r: bool)
        ensures
            r == spec_is_terminal(*self),
    {
        match self {
            TxStatus::Queued => false,
            TxStatus::Broadcasting => false,
            TxStatus::RetryScheduled => false,
            TxStatus::Executed => true,
            TxStatus::Expired => true,
            TxStatus::Invalid => true,
            TxStatus::StaleByNonce => true,
            TxStatus::CanceledLocally => true,
        }
    }

    /// The wire name of this status.
    pub fn as_str(&self) -> (r: &'static str)
        ensures
            r@ == spec_status_name(*self),
    {
        match self {
            TxStatus::Queued => "queued",
            TxStatus::Broadcasting => "broadcasting",
            TxStatus::RetryScheduled => "retry_scheduled",
            TxStatus::Executed => "executed",
            TxStatus::Expired => "expired",
            TxStatus::Invalid => "invalid",
            TxStatus::StaleByNonce => "stale_by_nonce",
            TxStatus::CanceledLocally => "canceled_locally",
        }
    }

    /// Parses a wire name back to a status.
    pub fn try_from(value: &str) -> (r: Result<TxStatus, ()>)
        ensures
            r is Ok <==> spec_status_parse(value@) is Some,
            r is Ok ==> Some(r->Ok_0) == spec_status_parse(value@),
    {
        if str_eq(value, "queued") {
            Ok(TxStatus::Queued)
        } else if str_eq(value, "broadcasting") {
            Ok(TxStatus::Broadcasting)
        } else if str_eq(value, "retry_scheduled") {
            Ok(TxStatus::RetryScheduled)
        } else if str_eq(value, "executed") {
            Ok(TxStatus::Executed)
        } else if str_eq(value, "expired") {
            Ok(TxStatus::Expired)
        } else if str_eq(value, "invalid") {
            Ok(TxStatus::Invalid)
        } else if str_eq(value, "stale_by_nonce") {
            Ok(TxStatus::StaleByNonce)
        } else if str_eq(value, "canceled_locally") {
            Ok(TxStatus::CanceledLocally)
        } else {
            Err(())
        }
    }
}

/// The wire names of the eight statuses are pairwise distinct, so `as_str`
/// and `try_from` are inverse to one another.
pub proof fn lemma_status_names_distinct(a: TxStatus, b: TxStatus)
    ensures
        spec_status_name(a) == spec_status_name(b) ==> a == b,
        spec_status_parse(spec_status_name(a)) == Some(a),
{
    reveal_strlit("queued");
    reveal_strlit("broadcasting");
    reveal_strlit("retry_scheduled");
    reveal_strlit("executed");
    reveal_strlit("expired");
    reveal_strlit("invalid");
    reveal_strlit("stale_by_nonce");
    reveal_strlit("canceled_locally");
    assert("queued"@.len() == 6);
    assert("broadcasting"@.len() == 12);
    assert("retry_scheduled"@.len() == 15);
    assert("executed"@.len() == 8);
    assert("expired"@.len() == 7);
    assert("invalid"@.len() == 7);
    assert("stale_by_nonce"@.len() == 14);
    assert("canceled_locally"@.len() == 16);
    assert("expired"@ != "invalid"@) by {
        assert("expired"@[0] == 'e' && "invalid"@[0] == 'i');
    }
    assert(spec_status_parse(spec_status_name(TxStatus::Queued)) == Some(TxStatus::Queued));
    assert(spec_status_parse(spec_status_name(TxStatus::Broadcasting)) == Some(
        TxStatus::Broadcasting,
    ));
    assert(spec_status_parse(spec_status_name(TxStatus::RetryScheduled)) == Some(
        TxStatus::RetryScheduled,
    ));
    assert(spec_status_parse(spec_status_name(TxStatus::Executed)) == Some(TxStatus::Executed));
    assert(spec_status_parse(spec_status_name(TxStatus::Expired)) == Some(TxStatus::Expired));
    assert(spec_status_parse(spec_status_name(TxStatus::Invalid)) == Some(TxStatus::Invalid));
    assert(spec_status_parse(spec_status_name(TxStatus::StaleByNonce)) == Some(
        TxStatus::StaleByNonce,
    ));
    assert(spec_status_parse(spec_status_name(TxStatus::CanceledLocally)) == Some(
        TxStatus::CanceledLocally,
    ));
}

} // verus!
