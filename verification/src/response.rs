//! What an origin answered: the status, and the body of a refusal.

use vstd::prelude::*;
use vstd::string::*;
use crate::error::PullError;

verus! {

/// How many characters of a refusal's body are kept.
pub const BODY_LIMIT: usize = 2000;

/// Whether `status` is a success, that is, from 200 to 299.
pub open spec fn success(status: u16) -> bool {
    200 <= status <= 299
}

/// `c` with a line break replaced by a blank.
pub open spec fn flat(c: char) -> char {
    if c == '\n' || c == '\r' {
        ' '
    } else {
        c
    }
}

/// The first `n` characters of `body` on one line.
pub open spec fn flat_prefix(body: Seq<char>, n: nat) -> Seq<char> {
    Seq::new(n, |i: int| flat(body[i]))
}

/// The body of a refusal as it is reported: on one line, and cut after
/// `BODY_LIMIT` characters with an ellipsis in place of the rest.
pub open spec fn body_summary(body: Seq<char>) -> Seq<char> {
    if body.len() > BODY_LIMIT {
        flat_prefix(body, BODY_LIMIT as nat).push('\u{2026}')
    } else {
        flat_prefix(body, body.len())
    }
}

/// Tests `success`.
pub fn is_success(status: u16) -> (b: bool)
    ensures
        b == success(status),
{
    200 <= status && status <= 299
}

/// Accepts an answer by its status alone.
pub fn ensure_success(status: u16) -> (r: Result<(), PullError>)
    ensures
        success(status) ==> r is Ok,
        !success(status) ==> r == Err::<(), PullError>(PullError::Protocol { status }),
{
    if is_success(status) {
        Ok(())
    } else {
        Err(PullError::Protocol { status })
    }
}

/// Prepares the body of a refusal for a one-line report.
pub fn summarize_body(body: &str) -> (r: String)
    ensures
        r@ == body_summary(body@),
{
    let n: usize = body.unicode_len();
    let limit: usize = if n > BODY_LIMIT {
        BODY_LIMIT
    } else {
        n
    };
    let mut r = String::new();
    let mut i: usize = 0;
    proof {
        reveal_strlit(" ");
        reveal_strlit("\u{2026}");
        assert(r@ =~= flat_prefix(body@, 0));
    }
    while i < limit
        invariant
            i <= limit <= n,
            n == body@.len(),
            " "@ == seq![' '],
            r@ == flat_prefix(body@, i as nat),
        decreases limit - i,
    {
        let c: char = body.get_char(i);
        if c == '\n' || c == '\r' {
            r.append(" ");
        } else {
            r.append(body.substring_char(i, i + 1));
        }
        proof {
            assert(r@ =~= flat_prefix(body@, (i + 1) as nat));
        }
        i += 1;
    }
    if n > BODY_LIMIT {
        r.append("\u{2026}");
        proof {
            assert("\u{2026}"@ =~= seq!['\u{2026}']);
            assert(r@ =~= flat_prefix(body@, BODY_LIMIT as nat).push('\u{2026}'));
        }
    }
    r
}

} // verus!
