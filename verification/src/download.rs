//! The decisions of a download: skip or resume an existing file, how long to
//! wait before a retry, which byte range to ask for, and what to do with each
//! response. Sending requests and writing files is left to the caller.
use vstd::prelude::*;

use vstd::arithmetic::power2::pow2;

use crate::text::push_char;

verus! {

/// What to do about a destination before any request.
#[derive(Debug, Clone, Copy, PartialEq, Eq, Structural)]
pub enum StartDecision {
    /// The file is there and resuming is off: count it as done.
    Skip,
    /// Fetch the file; when `existing` is above 0, ask for the bytes after it.
    Fetch { existing: u64 },
}

/// What to do with a response.
#[derive(Debug, Clone, Copy, PartialEq, Eq, Structural)]
pub enum ResponseAction {
    /// 416 Range Not Satisfiable: the partial file is already complete.
    AlreadyComplete,
    /// A client error (4xx): the link is dead, give up without retrying.
    GiveUp,
    /// A server error (5xx): try again if attempts remain.
    Retry,
    /// Save the body: appended to the partial file when `append`, otherwise
    /// replacing the file.
    Save { append: bool },
}

/// Decides what to do before fetching `dest`: when it exists and resuming is
/// off it is skipped; when it exists with some bytes and resuming is on,
/// those bytes are kept; otherwise it is fetched whole.
pub fn plan_start(exists: bool, size: u64, resume: bool) -> (r: StartDecision)
    ensures
        r == if exists && !resume {
            StartDecision::Skip
        } else if exists && resume && size > 0 {
            StartDecision::Fetch { existing: size }
        } else {
            StartDecision::Fetch { existing: 0 }
        },
{
    if exists {
        if resume && size > 0 {
            StartDecision::Fetch { existing: size }
        } else if !resume {
            StartDecision::Skip
        } else {
            StartDecision::Fetch { existing: 0 }
        }
    } else {
        StartDecision::Fetch { existing: 0 }
    }
}

/// The wait before attempt `attempt` (counted from 0): none for the first,
/// then 500 ms doubling with each further attempt.
pub open spec fn backoff_spec(attempt: nat) -> Option<nat> {
    if attempt == 0 {
        None
    } else {
        Some(500 * pow2((attempt - 1) as nat))
    }
}

/// The wait in milliseconds before attempt `attempt` (counted from 0), if any.
/// The wait must fit in a `u64`.
pub fn backoff_before(attempt: u32) -> (r: Option<u64>)
    requires
        attempt == 0 || 500 * pow2((attempt - 1) as nat) <= u64::MAX,
    ensures
        r matches Some(ms) ==> backoff_spec(attempt as nat) == Some(ms as nat),
        r is None ==> backoff_spec(attempt as nat) is None,
{
    if attempt == 0 {
        return None;
    }
    let mut p: u64 = 1;
    let mut k: u32 = 0;
    proof {
        vstd::arithmetic::power2::lemma2_to64();
    }
    while k < attempt - 1
        invariant
            k <= attempt - 1,
            p as nat == pow2(k as nat),
            500 * pow2((attempt - 1) as nat) <= u64::MAX,
        decreases attempt - 1 - k,
    {
        proof {
            vstd::arithmetic::power2::lemma_pow2_unfold((k + 1) as nat);
        }
        assert(p * 2 <= u64::MAX) by {
            if k + 1 < attempt - 1 {
                vstd::arithmetic::power2::lemma_pow2_strictly_increases((k + 1) as nat, (attempt - 1) as nat);
            }
        }
        p = p * 2;
        k += 1;
    }
    Some(500 * p)
}

/// The text of `d` as a decimal digit.
pub open spec fn digit_char(d: nat) -> char {
    if d == 0 {
        '0'
    } else if d == 1 {
        '1'
    } else if d == 2 {
        '2'
    } else if d == 3 {
        '3'
    } else if d == 4 {
        '4'
    } else if d == 5 {
        '5'
    } else if d == 6 {
        '6'
    } else if d == 7 {
        '7'
    } else if d == 8 {
        '8'
    } else {
        '9'
    }
}

/// The decimal text of `n`, without leading zeros.
pub open spec fn decimal(n: nat) -> Seq<char>
    decreases n,
{
    if n < 10 {
        seq![digit_char(n)]
    } else {
        decimal(n / 10).push(digit_char(n % 10))
    }
}

fn digit_char_exec(d: u64) -> (r: char)
    requires
        d < 10,
    ensures
        r == digit_char(d as nat),
{
    if d == 0 {
        '0'
    } else if d == 1 {
        '1'
    } else if d == 2 {
        '2'
    } else if d == 3 {
        '3'
    } else if d == 4 {
        '4'
    } else if d == 5 {
        '5'
    } else if d == 6 {
        '6'
    } else if d == 7 {
        '7'
    } else if d == 8 {
        '8'
    } else {
        '9'
    }
}

fn push_decimal(s: &mut String, n: u64)
    ensures
        final(s)@ == old(s)@ + decimal(n as nat),
    decreases n,
{
    if n >= 10 {
        push_decimal(s, n / 10);
    }
    push_char(s, digit_char_exec(n % 10));
    proof {
        if n < 10 {
            assert(decimal(n as nat) =~= seq![digit_char(n as nat)]);
            assert(old(s)@ + seq![digit_char(n as nat)] =~= old(s)@.push(digit_char(n as nat)));
        } else {
            assert(old(s)@ + decimal((n / 10) as nat) + seq![digit_char((n % 10) as nat)] =~= old(s)@ + decimal(n as nat));
        }
    }
}

/// The `Range` header value asking for the bytes after the first `existing`,
/// when there are any.
pub open spec fn range_spec(existing: nat) -> Option<Seq<char>> {
    if existing > 0 {
        Some("bytes="@ + decimal(existing) + "-"@)
    } else {
        None
    }
}

/// The `Range` header value for resuming after `existing` bytes
/// (`bytes=<n>-`), or `None` when the download starts from scratch.
pub fn range_header(existing: u64) -> (r: Option<String>)
    ensures
        r.deep_view() == range_spec(existing as nat),
{
    if existing > 0 {
        let mut h = String::from_str("bytes=");
        push_decimal(&mut h, existing);
        h.append("-");
        Some(h)
    } else {
        None
    }
}

/// What to do with a response of status `status` when `existing` bytes were
/// kept: 416 means the file is complete; other 4xx give up; 5xx retry; any
/// other status saves the body, appending only for 206 Partial Content on a
/// resumed download.
pub open spec fn response_action(status: u16, existing: u64) -> ResponseAction {
    if status == 416 {
        ResponseAction::AlreadyComplete
    } else if 400 <= status <= 499 {
        ResponseAction::GiveUp
    } else if 500 <= status <= 599 {
        ResponseAction::Retry
    } else {
        ResponseAction::Save { append: status == 206 && existing > 0 }
    }
}

/// Decides what to do with a response (see `response_action`).
pub fn classify_response(status: u16, existing: u64) -> (r: ResponseAction)
    ensures
        r == response_action(status, existing),
{
    if status == 416 {
        ResponseAction::AlreadyComplete
    } else if 400 <= status && status <= 499 {
        ResponseAction::GiveUp
    } else if 500 <= status && status <= 599 {
        ResponseAction::Retry
    } else {
        ResponseAction::Save { append: status == 206 && existing > 0 }
    }
}

// ---------------------------------------------------------------------------
// The attempts of one download
// ---------------------------------------------------------------------------

/// One request to send: how long to wait before it, and the `Range` header
/// to send with it, if any.
#[derive(Debug)]
pub struct Request {
    pub wait_ms: Option<u64>,
    pub range: Option<String>,
}

/// The attempts of one download: at most `retries + 1` requests, the first
/// after the optional delay, each later one after its back-off, until a
/// response settles the download.
pub struct Attempts {
    existing: u64,
    retries: u32,
    delay_ms: Option<u64>,
    made: u64,
    settled: bool,
}

impl Attempts {
    /// The bytes kept from an earlier run.
    pub closed spec fn existing(&self) -> u64 {
        self.existing
    }

    /// The retries allowed after the first request.
    pub closed spec fn retries(&self) -> u32 {
        self.retries
    }

    /// The wait before the first request.
    pub closed spec fn delay(&self) -> Option<u64> {
        self.delay_ms
    }

    /// The requests handed out so far.
    pub closed spec fn made(&self) -> nat {
        self.made as nat
    }

    /// Whether a response has settled the download (saved, complete, or
    /// given up on).
    pub closed spec fn settled(&self) -> bool {
        self.settled
    }

    /// No more requests are handed out than one plus the retries.
    pub closed spec fn wf(&self) -> bool {
        self.made <= self.retries as u64 + 1
    }

    /// Whether the wait before the next request is known to fit in a `u64`.
    pub open spec fn next_wait_fits_spec(&self) -> bool {
        self.made() == 0 || 500 * pow2((self.made() - 1) as nat) <= u64::MAX
    }

    /// Starts the attempts of a download that keeps `existing` bytes, may be
    /// retried `retries` times, and waits `delay_ms` before its first request.
    pub fn new(existing: u64, retries: u32, delay_ms: Option<u64>) -> (r: Attempts)
        ensures
            r.wf(),
            r.existing() == existing,
            r.retries() == retries,
            r.delay() == delay_ms,
            r.made() == 0,
            !r.settled(),
    {
        Attempts { existing, retries, delay_ms, made: 0, settled: false }
    }

    /// The requests handed out so far.
    pub fn made_count(&self) -> (r: u64)
        ensures
            r == self.made(),
    {
        self.made
    }

    /// Whether the wait before the next request fits in a `u64` (the back-off
    /// of the next retry can be computed).
    pub fn next_wait_fits(&self) -> (r: bool)
        requires
            self.wf(),
        ensures
            r == self.next_wait_fits_spec(),
    {
        proof {
            vstd::arithmetic::power2::lemma2_to64_rest();
            if self.made > 0 {
                let k = (self.made - 1) as nat;
                if k < 55 {
                    vstd::arithmetic::power2::lemma_pow2_strictly_increases(k, 55);
                } else if k > 56 {
                    vstd::arithmetic::power2::lemma_pow2_strictly_increases(56, k);
                }
            }
        }
        self.made == 0 || self.made - 1 <= 55
    }

    /// The next request, or `None` once the download is settled or every
    /// allowed attempt was made: the first waits for the delay, attempt `k`
    /// (from 1) for its back-off, and each asks for the bytes after those
    /// kept.
    pub fn next_request(&mut self) -> (r: Option<Request>)
        requires
            old(self).wf(),
            old(self).next_wait_fits_spec(),
        ensures
            final(self).wf(),
            final(self).existing() == old(self).existing(),
            final(self).retries() == old(self).retries(),
            final(self).delay() == old(self).delay(),
            final(self).settled() == old(self).settled(),
            old(self).settled() || old(self).made() > old(self).retries() ==> r is None && final(self).made() == old(
                self,
            ).made(),
            !old(self).settled() && old(self).made() <= old(self).retries() ==> {
                &&& final(self).made() == old(self).made() + 1
                &&& r matches Some(req) && req.range.deep_view() == range_spec(old(self).existing() as nat)
                    && req.wait_ms == (if old(self).made() == 0 {
                    old(self).delay()
                } else {
                    Some((500 * pow2((old(self).made() - 1) as nat)) as u64)
                })
            },
    {
        if self.settled || self.made > self.retries as u64 {
            return None;
        }
        let wait = if self.made == 0 {
            self.delay_ms
        } else {
            let w = backoff_before(self.made as u32);
            w
        };
        self.made = self.made + 1;
        Some(Request { wait_ms: wait, range: range_header(self.existing) })
    }

    /// Reads the response to the last request (see `response_action`): every
    /// action but `Retry` settles the download.
    pub fn on_status(&mut self, status: u16) -> (r: ResponseAction)
        requires
            old(self).wf(),
        ensures
            final(self).wf(),
            r == response_action(status, old(self).existing()),
            final(self).existing() == old(self).existing(),
            final(self).retries() == old(self).retries(),
            final(self).delay() == old(self).delay(),
            final(self).made() == old(self).made(),
            final(self).settled() == (old(self).settled() || r != ResponseAction::Retry),
    {
        let r = classify_response(status, self.existing);
        if r != ResponseAction::Retry {
            self.settled = true;
        }
        r
    }

    /// A well-formed download has made at most one request more than its retries.
    pub proof fn lemma_requests_bounded(&self)
        requires
            self.wf(),
        ensures
            self.made() <= self.retries() + 1,
    {
    }
}

/// A client error (4xx) is never retried: the link is dead.
pub proof fn lemma_client_errors_not_retried(status: u16, existing: u64)
    requires
        400 <= status <= 499,
    ensures
        response_action(status, existing) != ResponseAction::Retry,
        status != 416 ==> response_action(status, existing) == ResponseAction::GiveUp,
{
}

/// The back-off doubles from one retry to the next: 500 ms, 1 s, 2 s, …
pub proof fn lemma_backoff_doubles(attempt: nat)
    requires
        attempt >= 1,
    ensures
        backoff_spec(1) == Some(500nat),
        backoff_spec(attempt + 1) == Some(2 * backoff_spec(attempt)->0),
{
    vstd::arithmetic::power2::lemma_pow2_unfold(attempt);
    vstd::arithmetic::power2::lemma2_to64();
}

/// A download never appends unless bytes were kept from an earlier run, and
/// a fresh download (nothing kept) asks for no range.
pub proof fn lemma_fresh_download_overwrites(status: u16)
    ensures
        response_action(status, 0) != (ResponseAction::Save { append: true }),
        range_spec(0) is None,
{
}

} // verus!
