//! The polling discipline for the usage service.
//!
//! - 401/403: the credential is read again once and, if it changed, the request is
//!   made again (the CLI may have just refreshed the token); still failing means
//!   `needsAuth`.
//! - 429: back off 60 s × 2ⁿ, capped at 15 min; a `Retry-After` only raises the wait.
//!   The deadline lives in the snapshot, which is persisted.
//! - No percentage is invented on failure: the last reading is kept and marked stale.

use vstd::prelude::*;
use vstd::string::*;
use vstd::arithmetic::power2::{pow2, lemma2_to64};
use vstd::bits::lemma_u64_shl_is_mul;
use crate::text::{decimal, decimal_text, parse_u64, unsigned_value, unsigned_digits, digits_value, is_digit};
use crate::usage::{LimitWindow, UsageSnapshot, SnapshotView, window_views, parse_response, reply_limit_readings, reply_fallback, assembled, FallbackField};
use crate::json::{json_document, parse_json_text};
use crate::credentials::CliNames;

verus! {

/// The first wait after a 429, in seconds.
pub const BACKOFF_BASE_SECS: u64 = 60;

/// The longest wait that the back-off alone reaches, in seconds.
pub const BACKOFF_CAP_SECS: u64 = 900;

/// The pause between polls while the assistant's CLI runs, in seconds.
pub const POLL_ACTIVE_SECS: u64 = 60;

/// The pause between polls otherwise, in seconds.
pub const POLL_IDLE_SECS: u64 = 300;

/// The wait after the `consecutive + 1`-th 429 in a row, in seconds, when the server
/// asked for at least `floor`: 60 s doubled per earlier 429, at most four times,
/// held to 60..=900 s, and raised to `floor`.
pub open spec fn backoff(consecutive: u32, floor: u64) -> int {
    let doublings: nat = if consecutive < 4 { consecutive as nat } else { 4 };
    let grown = BACKOFF_BASE_SECS * pow2(doublings);
    let held = if grown < BACKOFF_BASE_SECS {
        BACKOFF_BASE_SECS as int
    } else if grown > BACKOFF_CAP_SECS {
        BACKOFF_CAP_SECS as int
    } else {
        grown as int
    };
    if floor > held {
        floor as int
    } else {
        held
    }
}

/// The wait after a 429 (`consecutive` is how many came just before it), in seconds,
/// given the server's `Retry-After` (0 when it gave none).
pub fn backoff_secs(consecutive: u32, retry_after_floor: u64) -> (r: u64)
    ensures
        r == backoff(consecutive, retry_after_floor),
{
    let doublings: u64 = if consecutive < 4 { consecutive as u64 } else { 4 };
    proof {
        lemma2_to64();
        lemma_u64_shl_is_mul(1, doublings);
    }
    let grown = BACKOFF_BASE_SECS * (1u64 << doublings);
    let held = if grown < BACKOFF_BASE_SECS {
        BACKOFF_BASE_SECS
    } else if grown > BACKOFF_CAP_SECS {
        BACKOFF_CAP_SECS
    } else {
        grown
    };
    if retry_after_floor > held {
        retry_after_floor
    } else {
        held
    }
}

/// Why a request to the usage service gave no windows.
pub enum FetchErr {
    /// The credential was refused (401 or 403).
    NeedsAuth,
    /// Too many requests (429); the server's suggested wait in seconds, 0 when it gave
    /// none that reads as a number.
    RateLimited(u64),
    /// Any other failure, described.
    Other(String),
}

/// The wait that a `Retry-After` header asks for, in seconds: its value when it reads
/// as an unsigned number, else 0.
pub open spec fn retry_after_secs(header: Option<Seq<char>>) -> int {
    match header {
        Some(h) => match unsigned_value(h, u64::MAX as int) {
            Some(v) => v,
            None => 0,
        },
        None => 0,
    }
}

/// The failure that an error status `code` reports; `retry_after` is the response's
/// `Retry-After` header, if any.
pub fn fetch_error_for_status(code: u16, retry_after: Option<&str>) -> (r: FetchErr)
    ensures
        r is NeedsAuth <==> (code == 401 || code == 403),
        r is RateLimited <==> code == 429,
        r matches FetchErr::RateLimited(secs) ==> secs == retry_after_secs(
            match retry_after {
                Some(h) => Some(h@),
                None => None,
            },
        ),
        r matches FetchErr::Other(m) ==> m@ == "HTTP "@ + decimal_text(code as nat),
{
    if code == 401 || code == 403 {
        FetchErr::NeedsAuth
    } else if code == 429 {
        let secs = match retry_after {
            Some(h) => match parse_u64(h) {
                Some(v) => v,
                None => 0,
            },
            None => 0,
        };
        FetchErr::RateLimited(secs)
    } else {
        let mut m = String::from_str("HTTP ");
        m.append(decimal(code as u64).as_str());
        FetchErr::Other(m)
    }
}

/// The note shown when the credential is refused: `expired` is the hint read with it.
pub open spec fn auth_note(expired: bool, names: CliNames) -> Seq<char> {
    if expired {
        "Credential expired — run any "@ + names.command@ + " command (or chat with "@ + names.assistant@
            + ") to refresh it"@
    } else {
        "Credential rejected (switched accounts?)"@
    }
}

/// The note shown while backing off for `wait` seconds.
pub open spec fn rate_note(wait: int) -> Seq<char> {
    "Rate limited, retrying in "@ + decimal_text(wait as nat) + "s"@
}

/// The snapshot when no credential is found.
pub open spec fn without_credentials(s: SnapshotView, names: CliNames) -> SnapshotView {
    SnapshotView { status: "needsAuth"@, note: "No "@ + names.cli@ + " credential found"@, ..s }
}

/// The snapshot, and the count of 429s in a row, after a request ended with
/// `outcome` at `now`; `consecutive` is the count before it and `expired` the expiry
/// hint read with the credential.
pub open spec fn recorded(
    s: SnapshotView,
    consecutive: u32,
    outcome: Result<Vec<LimitWindow>, FetchErr>,
    expired: bool,
    now: u64,
    names: CliNames,
) -> (SnapshotView, u32) {
    match outcome {
        Ok(ws) => (
            SnapshotView {
                status: "ok"@,
                windows: window_views(ws@),
                fetched_at: now,
                note: Seq::empty(),
                backoff_until: 0,
            },
            0,
        ),
        Err(FetchErr::NeedsAuth) => (SnapshotView { status: "needsAuth"@, note: auth_note(expired, names), ..s }, consecutive),
        Err(FetchErr::RateLimited(ra)) => {
            let wait = backoff(consecutive, ra);
            (
                SnapshotView {
                    status: if s.windows.len() > 0 { "stale"@ } else { s.status },
                    note: rate_note(wait),
                    backoff_until: (now + wait * 1000) as u64,
                    ..s
                },
                (consecutive + 1) as u32,
            )
        },
        Err(FetchErr::Other(m)) => (
            SnapshotView {
                status: if s.windows.len() > 0 { "stale"@ } else { "error"@ },
                note: m@,
                ..s
            },
            consecutive,
        ),
    }
}

/// A 429 after `consecutive` others, with `Retry-After` `ra`, at `now` leaves the count
/// and the deadline within their types.
pub open spec fn rate_limit_fits(consecutive: u32, ra: u64, now: u64) -> bool {
    consecutive < u32::MAX && now + backoff(consecutive, ra) * 1000 <= u64::MAX
}

/// Records that no credential was found.
pub fn record_missing_credentials(snap: &mut UsageSnapshot, names: &CliNames)
    ensures
        final(snap)@ == without_credentials(old(snap)@, *names),
{
    snap.status = String::from_str("needsAuth");
    let mut note = String::from_str("No ");
    note.append(names.cli.as_str());
    note.append(" credential found");
    snap.note = note;
}

/// Records how a request ended, at `now`; `consecutive` counts the 429s in a row.
pub fn record_outcome(
    snap: &mut UsageSnapshot,
    consecutive: &mut u32,
    outcome: Result<Vec<LimitWindow>, FetchErr>,
    expired: bool,
    now: u64,
    names: &CliNames,
)
    requires
        outcome matches Err(FetchErr::RateLimited(ra)) ==> rate_limit_fits(*old(consecutive), ra, now),
    ensures
        (final(snap)@, *final(consecutive)) == recorded(old(snap)@, *old(consecutive), outcome, expired, now, *names),
{
    match outcome {
        Ok(windows) => {
            *consecutive = 0;
            snap.status = String::from_str("ok");
            snap.windows = windows;
            snap.fetched_at = now;
            snap.note = String::new();
            snap.backoff_until = 0;
        },
        Err(FetchErr::NeedsAuth) => {
            snap.status = String::from_str("needsAuth");
            snap.note = if expired {
                let mut note = String::from_str("Credential expired — run any ");
                note.append(names.command.as_str());
                note.append(" command (or chat with ");
                note.append(names.assistant.as_str());
                note.append(") to refresh it");
                note
            } else {
                String::from_str("Credential rejected (switched accounts?)")
            };
        },
        Err(FetchErr::RateLimited(ra)) => {
            let wait = backoff_secs(*consecutive, ra);
            *consecutive = *consecutive + 1;
            if snap.windows.len() > 0 {
                snap.status = String::from_str("stale");
            }
            let mut note = String::from_str("Rate limited, retrying in ");
            note.append(decimal(wait).as_str());
            note.append("s");
            snap.note = note;
            snap.backoff_until = now + wait * 1000;
        },
        Err(FetchErr::Other(msg)) => {
            if snap.windows.len() == 0 {
                snap.status = String::from_str("error");
            } else {
                snap.status = String::from_str("stale");
            }
            snap.note = msg;
        },
    }
}

/// How long to hold off while the back-off deadline `backoff_until` is ahead of `now`,
/// in seconds, held to 1..=30 so that the deadline is looked at again soon.
pub open spec fn backoff_pause(backoff_until: u64, now: u64) -> Option<u64> {
    if backoff_until > now {
        let secs = (backoff_until - now) / 1000;
        Some(
            if secs < 1 {
                1
            } else if secs > 30 {
                30
            } else {
                secs as u64
            },
        )
    } else {
        None
    }
}

/// The pause after a poll, in seconds: shorter while the assistant's CLI runs.
pub fn poll_interval_secs(active: bool) -> (r: u64)
    ensures
        r == (if active { POLL_ACTIVE_SECS } else { POLL_IDLE_SECS }),
{
    if active {
        POLL_ACTIVE_SECS
    } else {
        POLL_IDLE_SECS
    }
}

/// Where a poll cycle stands.
pub enum PollStage {
    /// Between cycles: the next wake looks at the back-off deadline.
    Idle,
    /// The credential has been asked for.
    AwaitCredentials,
    /// The request has been made with `token`.
    AwaitFetch { token: String, expired: bool },
    /// `token` was refused and the credential has been asked for again.
    AwaitReread { token: String, expired: bool },
    /// The request has been made again with the credential read the second time.
    AwaitRetry { expired: bool },
}

/// What the poll loop reports back.
pub enum PollEvent {
    /// A pause is over.
    Wake,
    /// The credential store was read: the token and its expiry hint, if found.
    Credentials(Option<(String, bool)>),
    /// A request ended.
    Fetched(Result<Vec<LimitWindow>, FetchErr>),
}

/// What the poll loop is to do next.
pub enum PollAction {
    /// Pause for this many seconds, then report a wake.
    Sleep(u64),
    /// Read the credential store and report what was found.
    ReadCredentials,
    /// Ask the usage service with this token and report how it ended.
    Fetch(String),
    /// The snapshot has been updated: publish it, pause for the poll interval, then
    /// report a wake.
    Rest,
}

/// The state of the poll loop.
pub struct Poller {
    pub stage: PollStage,
    /// How many requests in a row ended with a 429.
    pub consecutive_429: u32,
    /// The names used in the notes shown.
    pub names: CliNames,
}

/// The end of a cycle in which the credential was refused and no other one was found.
pub open spec fn refused(p: Poller, s: SnapshotView, expired: bool, now: u64) -> (Poller, SnapshotView, PollAction) {
    let (s2, c2) = recorded(s, p.consecutive_429, Err(FetchErr::NeedsAuth), expired, now, p.names);
    (Poller { stage: PollStage::Idle, consecutive_429: c2, ..p }, s2, PollAction::Rest)
}

/// The poller, the snapshot and the action after `event` at `now`. An event that the
/// stage does not wait for ends the cycle and changes nothing else.
pub open spec fn poll_step(p: Poller, s: SnapshotView, event: PollEvent, now: u64) -> (Poller, SnapshotView, PollAction) {
    let c = p.consecutive_429;
    match p.stage {
        PollStage::Idle => match event {
            PollEvent::Wake => match backoff_pause(s.backoff_until, now) {
                Some(secs) => (p, s, PollAction::Sleep(secs)),
                None => (
                    Poller { stage: PollStage::AwaitCredentials, ..p },
                    s,
                    PollAction::ReadCredentials,
                ),
            },
            _ => (Poller { stage: PollStage::Idle, ..p }, s, PollAction::Rest),
        },
        PollStage::AwaitCredentials => match event {
            PollEvent::Credentials(None) => (
                Poller { stage: PollStage::Idle, ..p },
                without_credentials(s, p.names),
                PollAction::Rest,
            ),
            PollEvent::Credentials(Some((t, e))) => (
                Poller { stage: PollStage::AwaitFetch { token: t, expired: e }, ..p },
                s,
                PollAction::Fetch(t),
            ),
            _ => (Poller { stage: PollStage::Idle, ..p }, s, PollAction::Rest),
        },
        PollStage::AwaitFetch { token, expired } => match event {
            PollEvent::Fetched(r) => if r matches Err(FetchErr::NeedsAuth) {
                (
                    Poller { stage: PollStage::AwaitReread { token: token, expired: expired }, ..p },
                    s,
                    PollAction::ReadCredentials,
                )
            } else {
                let (s2, c2) = recorded(s, c, r, expired, now, p.names);
                (Poller { stage: PollStage::Idle, consecutive_429: c2, ..p }, s2, PollAction::Rest)
            },
            _ => (Poller { stage: PollStage::Idle, ..p }, s, PollAction::Rest),
        },
        PollStage::AwaitReread { token, expired } => match event {
            PollEvent::Credentials(Some((t2, _))) => if t2@ != token@ {
                (
                    Poller { stage: PollStage::AwaitRetry { expired: expired }, ..p },
                    s,
                    PollAction::Fetch(t2),
                )
            } else {
                refused(p, s, expired, now)
            },
            PollEvent::Credentials(None) => refused(p, s, expired, now),
            _ => (Poller { stage: PollStage::Idle, ..p }, s, PollAction::Rest),
        },
        PollStage::AwaitRetry { expired } => match event {
            PollEvent::Fetched(r) => {
                let (s2, c2) = recorded(s, c, r, expired, now, p.names);
                (Poller { stage: PollStage::Idle, consecutive_429: c2, ..p }, s2, PollAction::Rest)
            },
            _ => (Poller { stage: PollStage::Idle, ..p }, s, PollAction::Rest),
        },
    }
}

/// The event would record a 429 (the stage awaits a request's end and the request
/// was rate limited), and `ra` is the wait the server asked for.
pub open spec fn records_rate_limit(stage: PollStage, event: PollEvent, ra: u64) -> bool {
    &&& (stage is AwaitFetch || stage is AwaitRetry)
    &&& event matches PollEvent::Fetched(Err(FetchErr::RateLimited(x))) && x == ra
}

impl Poller {
    /// A poller between cycles, with no 429 behind it, whose notes use `names`.
    pub fn new(names: CliNames) -> (r: Poller)
        ensures
            r.stage is Idle,
            r.consecutive_429 == 0,
            r.names == names,
    {
        Poller { stage: PollStage::Idle, consecutive_429: 0, names }
    }

    /// Takes the event that the poll loop reports at `now`, updating the snapshot
    /// `snap`, and says what the loop is to do next.
    pub fn step(&mut self, snap: &mut UsageSnapshot, event: PollEvent, now: u64) -> (action: PollAction)
        requires
            forall|ra: u64| records_rate_limit(old(self).stage, event, ra)
                ==> rate_limit_fits(old(self).consecutive_429, ra, now),
        ensures
            (*final(self), final(snap)@, action) == poll_step(*old(self), old(snap)@, event, now),
    {
        let mut stage = PollStage::Idle;
        std::mem::swap(&mut stage, &mut self.stage);
        match stage {
            PollStage::Idle => match event {
                PollEvent::Wake => {
                    if snap.backoff_until > now {
                        let secs = (snap.backoff_until - now) / 1000;
                        let secs = if secs < 1 {
                            1
                        } else if secs > 30 {
                            30
                        } else {
                            secs
                        };
                        PollAction::Sleep(secs)
                    } else {
                        self.stage = PollStage::AwaitCredentials;
                        PollAction::ReadCredentials
                    }
                },
                _ => PollAction::Rest,
            },
            PollStage::AwaitCredentials => match event {
                PollEvent::Credentials(None) => {
                    record_missing_credentials(snap, &self.names);
                    PollAction::Rest
                },
                PollEvent::Credentials(Some((t, e))) => {
                    let action = PollAction::Fetch(t.clone());
                    self.stage = PollStage::AwaitFetch { token: t, expired: e };
                    action
                },
                _ => PollAction::Rest,
            },
            PollStage::AwaitFetch { token, expired } => match event {
                PollEvent::Fetched(Err(FetchErr::NeedsAuth)) => {
                    self.stage = PollStage::AwaitReread { token, expired };
                    PollAction::ReadCredentials
                },
                PollEvent::Fetched(r) => {
                    record_outcome(snap, &mut self.consecutive_429, r, expired, now, &self.names);
                    PollAction::Rest
                },
                _ => PollAction::Rest,
            },
            PollStage::AwaitReread { token, expired } => match event {
                PollEvent::Credentials(again) => {
                    match again {
                        Some((t2, _)) => {
                            if t2 != token {
                                self.stage = PollStage::AwaitRetry { expired };
                                return PollAction::Fetch(t2);
                            }
                        },
                        None => {},
                    }
                    record_outcome(snap, &mut self.consecutive_429, Err(FetchErr::NeedsAuth), expired, now, &self.names);
                    PollAction::Rest
                },
                _ => PollAction::Rest,
            },
            PollStage::AwaitRetry { expired } => match event {
                PollEvent::Fetched(r) => {
                    record_outcome(snap, &mut self.consecutive_429, r, expired, now, &self.names);
                    PollAction::Rest
                },
                _ => PollAction::Rest,
            },
        }
    }
}

/// The back-off waits at least the base of 60 s and at least what `Retry-After` asked;
/// a `Retry-After` only raises the wait, never lowers it; without one the wait is
/// capped at 15 min; and a longer run of 429s never waits less.
pub proof fn law_backoff_bounds(consecutive: u32, later: u32, floor: u64)
    requires
        consecutive <= later,
    ensures
        backoff(consecutive, floor) >= BACKOFF_BASE_SECS,
        backoff(consecutive, floor) >= floor,
        backoff(consecutive, floor) == (if floor > backoff(consecutive, 0) {
            floor as int
        } else {
            backoff(consecutive, 0)
        }),
        backoff(consecutive, 0) <= BACKOFF_CAP_SECS,
        backoff(consecutive, floor) <= backoff(later, floor),
        consecutive >= 4 ==> backoff(consecutive, 0) == BACKOFF_CAP_SECS,
{
    lemma2_to64();
}

/// A failed request never invents a reading: the windows and the time they were read
/// stay as they were, and when there were windows the snapshot is marked stale (or,
/// for a refused credential, as needing sign-in).
pub proof fn law_failure_keeps_reading(
    s: SnapshotView,
    consecutive: u32,
    e: FetchErr,
    expired: bool,
    now: u64,
    names: CliNames,
)
    ensures
        recorded(s, consecutive, Err(e), expired, now, names).0.windows == s.windows,
        recorded(s, consecutive, Err(e), expired, now, names).0.fetched_at == s.fetched_at,
        s.windows.len() > 0 && !(e is NeedsAuth) ==> recorded(s, consecutive, Err(e), expired, now, names).0.status == "stale"@,
        e is NeedsAuth ==> recorded(s, consecutive, Err(e), expired, now, names).0.status == "needsAuth"@,
        e is RateLimited && s.windows.len() == 0 ==> recorded(s, consecutive, Err(e), expired, now, names).0.status == s.status,
        e matches FetchErr::Other(m) ==> recorded(s, consecutive, Err(e), expired, now, names).0.note == m@,
        e is Other && s.windows.len() == 0 ==> recorded(s, consecutive, Err(e), expired, now, names).0.status == "error"@,
        without_credentials(s, names).windows == s.windows,
        without_credentials(s, names).fetched_at == s.fetched_at,
        without_credentials(s, names).status == "needsAuth"@,
        without_credentials(s, names).note == "No "@ + names.cli@ + " credential found"@,
{
}

/// 429s are counted in a row until a success: each 429 adds one to the count and
/// waits `backoff(count before it, Retry-After)`, with the deadline that far past
/// `now` and a note saying so; a refused credential or another failure leaves the
/// count as it is; a success sets it to 0.
pub proof fn law_rate_limit_count(
    s: SnapshotView,
    consecutive: u32,
    outcome: Result<Vec<LimitWindow>, FetchErr>,
    expired: bool,
    now: u64,
    names: CliNames,
)
    requires
        outcome matches Err(FetchErr::RateLimited(ra)) ==> rate_limit_fits(consecutive, ra, now),
    ensures
        outcome matches Err(FetchErr::RateLimited(ra)) ==> ({
            let (s2, c2) = recorded(s, consecutive, outcome, expired, now, names);
            &&& c2 == consecutive + 1
            &&& s2.backoff_until == now + backoff(consecutive, ra) * 1000
            &&& s2.note == rate_note(backoff(consecutive, ra))
            &&& s2.windows == s.windows
        }),
        outcome matches Err(FetchErr::NeedsAuth) ==> recorded(s, consecutive, outcome, expired, now, names).1 == consecutive,
        outcome matches Err(FetchErr::Other(_)) ==> recorded(s, consecutive, outcome, expired, now, names).1 == consecutive,
        outcome is Ok ==> recorded(s, consecutive, outcome, expired, now, names).1 == 0,
{
}

/// Every poll cycle ends in a rest: a step that leaves a waiting stage for `Idle`
/// says `Rest` (publish, then pause for the poll interval), and a step that asks for
/// anything else keeps the cycle going; from `Idle` a wake either pauses for the
/// back-off or starts the cycle by reading the credential.
pub proof fn law_cycle_ends_with_rest(p: Poller, s: SnapshotView, event: PollEvent, now: u64)
    ensures
        !(p.stage is Idle) ==> (poll_step(p, s, event, now).0.stage is Idle <==> poll_step(p, s, event, now).2 is Rest),
        poll_step(p, s, event, now).2 is Rest ==> poll_step(p, s, event, now).0.stage is Idle,
        p.stage is Idle && event is Wake ==> (poll_step(p, s, event, now).2 is Sleep
            || poll_step(p, s, event, now).2 is ReadCredentials),
        poll_step(p, s, event, now).1 != s ==> poll_step(p, s, event, now).2 is Rest,
{
}

/// A successful request shows the windows read, clears the back-off and the count of
/// 429s, and leaves no note.
pub proof fn law_success_resets(
    s: SnapshotView,
    consecutive: u32,
    ws: Vec<LimitWindow>,
    expired: bool,
    now: u64,
    names: CliNames,
)
    ensures
        recorded(s, consecutive, Ok(ws), expired, now, names).0.windows == window_views(ws@),
        recorded(s, consecutive, Ok(ws), expired, now, names).0.status == "ok"@,
        recorded(s, consecutive, Ok(ws), expired, now, names).0.backoff_until == 0,
        recorded(s, consecutive, Ok(ws), expired, now, names).0.fetched_at == now,
        recorded(s, consecutive, Ok(ws), expired, now, names).1 == 0,
{
}

/// No request is made inside the back-off window: after a 429 recorded at `now`, a
/// wake at any time `t` before the deadline pauses again (for 1 s to 30 s) without
/// touching the snapshot, and the deadline is at least a minute away.
pub proof fn law_no_request_inside_backoff(
    p: Poller,
    s: SnapshotView,
    ra: u64,
    expired: bool,
    now: u64,
    t: u64,
)
    requires
        rate_limit_fits(p.consecutive_429, ra, now),
        p.stage is Idle,
        now <= t,
        t < recorded(s, p.consecutive_429, Err(FetchErr::RateLimited(ra)), expired, now, p.names).0.backoff_until,
    ensures
        ({
            let s2 = recorded(s, p.consecutive_429, Err(FetchErr::RateLimited(ra)), expired, now, p.names).0;
            &&& s2.backoff_until >= now + BACKOFF_BASE_SECS * 1000
            &&& poll_step(p, s2, PollEvent::Wake, t).1 == s2
            &&& poll_step(p, s2, PollEvent::Wake, t).2 matches PollAction::Sleep(secs) && 1 <= secs <= 30
        }),
{
    law_backoff_bounds(p.consecutive_429, p.consecutive_429, ra);
}

/// A refused credential is read once more and, only if it changed, tried once more;
/// a second refusal ends the cycle as needing sign-in, without a third read.
pub proof fn law_refusal_retried_once(
    c: u32,
    s: SnapshotView,
    token: String,
    expired: bool,
    again: Option<(String, bool)>,
    now: u64,
    names: CliNames,
)
    ensures
        ({
            let p0 = Poller { stage: PollStage::AwaitFetch { token: token, expired: expired }, consecutive_429: c, names: names };
            let (p1, s1, a1) = poll_step(p0, s, PollEvent::Fetched(Err(FetchErr::NeedsAuth)), now);
            let (p2, s2, a2) = poll_step(p1, s1, PollEvent::Credentials(again), now);
            &&& a1 is ReadCredentials
            &&& s1 == s
            &&& again matches Some((t2, _)) ==> (t2@ != token@ ==> (
                a2 == PollAction::Fetch(t2)
                && poll_step(p2, s2, PollEvent::Fetched(Err(FetchErr::NeedsAuth)), now).2 is Rest
                && poll_step(p2, s2, PollEvent::Fetched(Err(FetchErr::NeedsAuth)), now).1.status == "needsAuth"@
            ))
            &&& !(again matches Some((t2, _)) && t2@ != token@) ==> {
                &&& a2 is Rest
                &&& s2.status == "needsAuth"@
                &&& s2.note == auth_note(expired, names)
            }
        }),
{
}

/// A `Retry-After` that reads as a number is the wait asked for, exactly, however far
/// it goes past the back-off cap: for every run of decimal digits `h` (with or without
/// a leading `+`) whose value fits in a `u64`, the wait is that value; one that does
/// not fit reads as no wait at all.
pub proof fn law_retry_after_as_given(h: Seq<char>)
    requires
        h.len() > 0,
        forall|i: int| 0 <= i < h.len() ==> is_digit(#[trigger] h[i]),
    ensures
        digits_value(h) <= u64::MAX ==> retry_after_secs(Some(h)) == digits_value(h),
        digits_value(h) <= u64::MAX ==> retry_after_secs(Some(seq!['+'] + h)) == digits_value(h),
        digits_value(h) > u64::MAX ==> retry_after_secs(Some(h)) == 0,
{
    assert(unsigned_digits(h) == h) by {
        assert(is_digit(h[0]));
    }
    assert(unsigned_digits(seq!['+'] + h) =~= h);
}

/// Only a successful request changes the reading shown: a step that does not record a
/// request that succeeded (whatever the stage and the event, a refused credential not
/// replaced among them) leaves the windows and the time they were read as they were;
/// a step that records a success shows exactly the windows read, read at `now`.
pub proof fn law_windows_kept_unless_success(p: Poller, s: SnapshotView, event: PollEvent, now: u64)
    ensures
        !((p.stage is AwaitFetch || p.stage is AwaitRetry) && event matches PollEvent::Fetched(Ok(_))) ==> {
            &&& poll_step(p, s, event, now).1.windows == s.windows
            &&& poll_step(p, s, event, now).1.fetched_at == s.fetched_at
        },
        (p.stage is AwaitFetch || p.stage is AwaitRetry) ==> (event matches PollEvent::Fetched(Ok(ws)) ==> {
            &&& poll_step(p, s, event, now).1.windows == window_views(ws@)
            &&& poll_step(p, s, event, now).1.fetched_at == now
        }),
{
}

/// A request, from the user, for a poll now rather than at the end of the pause.
pub struct RefreshFlag {
    requested: bool,
}

impl View for RefreshFlag {
    type V = bool;

    /// Whether a refresh has been asked for and not yet taken.
    closed spec fn view(&self) -> bool {
        self.requested
    }
}

impl RefreshFlag {
    /// A flag with no request pending.
    pub fn new() -> (r: RefreshFlag)
        ensures
            !r@,
    {
        RefreshFlag { requested: false }
    }

    /// Takes the pending request, if any: says whether one was pending and leaves none.
    pub fn take(&mut self) -> (was: bool)
        ensures
            was == old(self)@,
            !final(self)@,
    {
        let was = self.requested;
        self.requested = false;
        was
    }
}

/// Asks for an immediate poll: the pause under way ends at its next second.
pub fn request_refresh(flag: &mut RefreshFlag)
    ensures
        final(flag)@,
{
    flag.requested = true;
}

/// Clears the back-off deadline, so that the next wake polls at once.
pub fn clear_backoff(snap: &mut UsageSnapshot)
    ensures
        final(snap)@ == (SnapshotView { backoff_until: 0, ..old(snap)@ }),
{
    snap.backoff_until = 0;
}

/// How a request that the service answered with a success status ended, given the
/// body's text: the windows of the reply, or a failure when the body is not JSON.
pub fn read_reply(body: &str) -> (r: Result<Vec<LimitWindow>, FetchErr>)
    ensures
        json_document(body@) matches Ok(v) ==> (r matches Ok(ws) && window_views(ws@) == assembled(
            reply_limit_readings(v),
            reply_fallback(v, FallbackField::FiveHour),
            reply_fallback(v, FallbackField::SevenDay),
        )),
        json_document(body@) matches Err(m) ==> (r matches Err(FetchErr::Other(n)) && n@ == "parse: "@ + m),
{
    match parse_json_text(body) {
        Ok(v) => Ok(parse_response(&v)),
        Err(m) => {
            let mut note = String::from_str("parse: ");
            note.append(m.as_str());
            Err(FetchErr::Other(note))
        },
    }
}

} // verus!
