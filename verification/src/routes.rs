//! The tagged results the service exposes to its transport layer,
//! and the mapping from fetch outcomes onto them.
//!
//! A lookup always resolves to one of the tagged outcomes below;
//! nothing else crosses the boundary.  Fetch errors are folded into
//! the `Error` outcome with fixed messages: an unexpected upstream
//! response is surfaced verbatim, pagination drift names the highest
//! valid page, and anything else is hidden behind an opaque internal
//! message.

use vstd::prelude::*;

pub mod linkshell;
pub mod search;

verus! {

/// Greeting served at the root of the service.
pub fn index() -> (r: &'static str)
    ensures
        r@ == "Hello, world!"@,
{
    "Hello, world!"
}

/// How a fetch against the upstream source can fail.
#[derive(Debug)]
pub enum ScrapeError {
    /// Upstream confirms the resource does not exist.
    NotFound,
    /// Upstream answered in an unexpected way; carries the rendered
    /// description of the response.
    UnexpectedResponse(String),
    /// Pagination drift: the request named a page beyond the highest
    /// valid one, which is carried here.
    InvalidPage(u64),
    /// Anything else — storage, transport, or parse failures whose
    /// detail must not leak to the caller.
    Internal,
}

/// The resolution of one lookup, serialized verbatim by the
/// transport layer.
pub enum RouteResult<T> {
    /// The resource was successfully retrieved from the durable
    /// store; `last_update` is the unix second it was last scraped.
    Success { result: T, last_update: i64 },
    /// The resource was not stored, so it has been queued for
    /// scraping at the given position.
    Adding { queue_position: u64 },
    /// The resource was scraped once and returned directly.
    Scraped { result: T },
    /// The resource came from the ephemeral cache and expires at the
    /// given unix second.
    Cached { result: T, expires: i64 },
    /// The resource does not exist upstream.
    NotFound,
    /// An error occurred while processing the lookup.
    Error { error: String },
}

impl<T> RouteResult<T> {
    /// Wrap an error message in the `Error` outcome.
    pub fn error(error: String) -> (r: Self)
        ensures
            r == (RouteResult::<T>::Error { error }),
    {
        RouteResult::Error { error }
    }
}

/// The decimal digit character for `d`.
pub open spec fn digit_char(d: nat) -> char {
    if d == 0 {
        '0'
    } else if d == 1 {
        '1'
    } else if d == 2 {
        '2'
    } else if d == 3 {
        '3'
    } else if d == 4 {
        '4'
    } else if d == 5 {
        '5'
    } else if d == 6 {
        '6'
    } else if d == 7 {
        '7'
    } else if d == 8 {
        '8'
    } else {
        '9'
    }
}

/// The decimal rendering of `n`, most significant digit first.
pub open spec fn dec_digits(n: nat) -> Seq<char>
    decreases n,
{
    if n < 10 {
        seq![digit_char(n)]
    } else {
        dec_digits(n / 10).push(digit_char(n % 10))
    }
}

/// The message surfaced when a request names a page beyond `max`.
pub open spec fn invalid_page_text(max: u64) -> Seq<char> {
    "invalid page (1 through "@ + dec_digits(max as nat) + " available)"@
}

/// The opaque message surfaced for internal failures.
pub open spec fn internal_error_text() -> Seq<char> {
    "an internal error occurred. did the lodestone change?"@
}

/// What `from_fetch` answers for a failed fetch: the relation every
/// error variant's outcome satisfies.
pub open spec fn is_error_outcome<T>(r: RouteResult<T>, e: ScrapeError) -> bool {
    match e {
        ScrapeError::NotFound => r is NotFound,
        ScrapeError::UnexpectedResponse(m) => r matches RouteResult::Error { error } && error@
            == m@,
        ScrapeError::InvalidPage(p) => r matches RouteResult::Error { error } && error@
            == invalid_page_text(p),
        ScrapeError::Internal => r matches RouteResult::Error { error } && error@
            == internal_error_text(),
    }
}

impl<T> RouteResult<T> {
    /// Fold a fetch outcome into a tagged result: a fetched value is
    /// `Scraped`, a confirmed absence is `NotFound`, and every
    /// failure becomes `Error` with its fixed message.
    pub fn from_fetch(res: Result<T, ScrapeError>) -> (r: Self)
        ensures
            res matches Ok(t) ==> r == (RouteResult::Scraped { result: t }),
            res matches Err(e) ==> is_error_outcome(r, e),
    {
        match res {
            Ok(result) => RouteResult::Scraped { result },
            Err(ScrapeError::NotFound) => RouteResult::NotFound,
            Err(ScrapeError::UnexpectedResponse(error)) => RouteResult::Error { error },
            Err(ScrapeError::InvalidPage(page)) => RouteResult::Error {
                error: invalid_page_message(page),
            },
            Err(ScrapeError::Internal) => RouteResult::Error {
                error: internal_error_message(),
            },
        }
    }
}

/// The one-character string for a decimal digit.
fn digit_str(d: u64) -> (r: &'static str)
    requires
        d < 10,
    ensures
        r@ =~= seq![digit_char(d as nat)],
{
    proof {
        reveal_strlit("0");
        reveal_strlit("1");
        reveal_strlit("2");
        reveal_strlit("3");
        reveal_strlit("4");
        reveal_strlit("5");
        reveal_strlit("6");
        reveal_strlit("7");
        reveal_strlit("8");
        reveal_strlit("9");
    }
    if d == 0 {
        "0"
    } else if d == 1 {
        "1"
    } else if d == 2 {
        "2"
    } else if d == 3 {
        "3"
    } else if d == 4 {
        "4"
    } else if d == 5 {
        "5"
    } else if d == 6 {
        "6"
    } else if d == 7 {
        "7"
    } else if d == 8 {
        "8"
    } else {
        "9"
    }
}

/// Append the decimal rendering of `n` to `out`.
fn push_dec(out: &mut String, n: u64)
    ensures
        final(out)@ == old(out)@ + dec_digits(n as nat),
    decreases n,
{
    if n >= 10 {
        push_dec(out, n / 10);
        out.append(digit_str(n % 10));
        proof {
            assert(old(out)@ + dec_digits((n / 10) as nat) + seq![digit_char((n % 10) as nat)]
                =~= old(out)@ + dec_digits(n as nat));
        }
    } else {
        out.append(digit_str(n));
        proof {
            assert(old(out)@ + seq![digit_char(n as nat)] =~= old(out)@ + dec_digits(n as nat));
        }
    }
}

/// Render the pagination-drift message naming the highest valid
/// page.
pub fn invalid_page_message(max: u64) -> (r: String)
    ensures
        r@ == invalid_page_text(max),
{
    let mut out = String::from_str("invalid page (1 through ");
    push_dec(&mut out, max);
    out.append(" available)");
    proof {
        assert("invalid page (1 through "@ + dec_digits(max as nat) + " available)"@
            =~= invalid_page_text(max));
    }
    out
}

/// Render the opaque internal-failure message.
pub fn internal_error_message() -> (r: String)
    ensures
        r@ == internal_error_text(),
{
    String::from_str("an internal error occurred. did the lodestone change?")
}


/// Offset basis of the query-parameter digest.
pub const DIGEST_INIT: u64 = 0xcbf29ce484222325;

/// Multiplier of the query-parameter digest.
pub const DIGEST_PRIME: u64 = 0x100000001b3;

/// Fold one word into a digest.
pub open spec fn spec_mix(h: u64, v: u64) -> u64 {
    vstd::wrapping::u64_specs::wrapping_mul(h ^ v, DIGEST_PRIME)
}

/// Fold a string into a digest, one character code at a time.
pub open spec fn spec_mix_str(h: u64, s: Seq<char>) -> u64
    decreases s.len(),
{
    if s.len() == 0 {
        h
    } else {
        spec_mix_str(spec_mix(h, s[0] as u64), s.drop_first())
    }
}

/// Fold an optional word into a digest; absence and presence mix
/// distinct tags first, so `None` and `Some(0)` digest differently.
pub open spec fn spec_mix_opt_u64(h: u64, o: Option<u64>) -> u64 {
    match o {
        None => spec_mix(h, 0),
        Some(v) => spec_mix(spec_mix(h, 1), v),
    }
}

/// Fold an optional string into a digest, tagged like
/// `spec_mix_opt_u64`.
pub open spec fn spec_mix_opt_str(h: u64, o: Option<Seq<char>>) -> u64 {
    match o {
        None => spec_mix(h, 0),
        Some(s) => spec_mix_str(spec_mix(h, 1), s),
    }
}

/// Fold one word into a digest.
pub fn mix(h: u64, v: u64) -> (r: u64)
    ensures
        r == spec_mix(h, v),
{
    (h ^ v).wrapping_mul(DIGEST_PRIME)
}

/// Fold a string into a digest.
pub fn mix_str(h0: u64, s: &str) -> (r: u64)
    ensures
        r == spec_mix_str(h0, s@),
{
    let n = s.unicode_len();
    let mut h = h0;
    let mut i: usize = 0;
    proof {
        assert(s@.skip(0) =~= s@);
    }
    while i < n
        invariant
            n == s@.len(),
            0 <= i <= n,
            spec_mix_str(h0, s@) == spec_mix_str(h, s@.skip(i as int)),
        decreases n - i,
    {
        let c = s.get_char(i);
        proof {
            let rest = s@.skip(i as int);
            assert(rest[0] == s@[i as int]);
            assert(rest.drop_first() =~= s@.skip(i + 1 as int));
        }
        h = mix(h, c as u64);
        i += 1;
    }
    proof {
        assert(s@.skip(n as int) =~= Seq::<char>::empty());
    }
    h
}

/// Fold an optional word into a digest.
pub fn mix_opt_u64(h: u64, o: &Option<u64>) -> (r: u64)
    ensures
        r == spec_mix_opt_u64(h, *o),
{
    match o {
        None => mix(h, 0),
        Some(v) => mix(mix(h, 1), *v),
    }
}

/// Fold an optional string into a digest.
pub fn mix_opt_str(h: u64, o: &Option<String>) -> (r: u64)
    ensures
        (*o matches Some(s) ==> r == spec_mix_opt_str(h, Some(s@))) && (*o is None ==> r
            == spec_mix_opt_str(h, None::<Seq<char>>)),
{
    match o {
        None => mix(h, 0),
        Some(s) => mix_str(mix(h, 1), s.as_str()),
    }
}

} // verus!
