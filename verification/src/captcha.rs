//! CAPTCHA challenges and their verification.
//!
//! A request from a suspicious address has to pass a challenge; trusted users
//! are exempt. Failed attempts are counted per address: from the third on, the
//! address has to wait, twice as long after each further failure, and every
//! fifth is reported to the reputation subsystem.
//!
//! Verification runs in two steps. The first looks up the challenge and either
//! decides at once (without a provider key any token is accepted) or says what
//! to ask the provider; the second turns the provider's reply into the answer.

use vstd::prelude::*;

use crate::clock::{utc_now, wall_clock_shows, Time, SECOND, TIME_MAX, TIME_MIN};
use crate::ids::{is_new_id, new_id};
use crate::json::{JsonModel, JsonValue};
use crate::table::{lemma_index_of, Table};
use crate::text::{
    decimal, join, join_texts, lemma_split_nonempty, name_option, parse_u32, parse_unsigned,
    push_decimal, same, split, split_text, text_option, texts, trim, trimmed,
};

verus! {

/// Lifetime of a challenge, in seconds.
pub const DEFAULT_CHALLENGE_TTL_SECS: i64 = 300;

/// Number of events from which on an address is considered suspicious.
pub const DEFAULT_SUSPICIOUS_THRESHOLD: u32 = 10;

/// Lifetime of the session token minted after a successful verification.
pub const SESSION_TOKEN_TTL_SECS: i64 = 3_600;

/// Number of consecutive failures from which on an address has to wait.
pub const BACKOFF_FAILURE_THRESHOLD: u32 = 3;

/// Every so many consecutive failures the address is reported.
pub const REPUTATION_FLAG_THRESHOLD: u32 = 5;

/// The shortest wait, in seconds; it doubles with every further failure.
pub const BASE_BACKOFF_SECS: i64 = 5;

/// The longest wait, in seconds.
pub const MAX_BACKOFF_SECS: i64 = 900;

/// How long a user is trusted where no duration is given, in seconds.
pub const DEFAULT_TRUST_SECS: u64 = 86_400;

/// A challenge to be solved.
#[derive(Debug)]
pub struct CaptchaChallenge {
    pub id: String,
    pub token: String,
    pub expires_at: Time,
    pub site_key: String,
}

impl Clone for CaptchaChallenge {
    fn clone(&self) -> (r: Self)
        ensures
            r == *self,
    {
        CaptchaChallenge {
            id: self.id.clone(),
            token: self.token.clone(),
            expires_at: self.expires_at,
            site_key: self.site_key.clone(),
        }
    }
}

/// A request to verify a solved challenge.
#[derive(Debug)]
pub struct CaptchaVerifyRequest {
    pub challenge_id: String,
    pub captcha_token: String,
    pub user_token: String,
}

/// The answer to a verification.
#[derive(Debug)]
pub struct CaptchaVerifyResponse {
    pub verified: bool,
    pub session_token: Option<String>,
    pub message: String,
}

/// A user who is exempt from challenges at an address.
#[derive(Debug)]
pub struct TrustedUser {
    pub user_id: String,
    pub ip: String,
    pub trusted_until: Time,
}

impl Clone for TrustedUser {
    fn clone(&self) -> (r: Self)
        ensures
            r == *self,
    {
        TrustedUser {
            user_id: self.user_id.clone(),
            ip: self.ip.clone(),
            trusted_until: self.trusted_until,
        }
    }
}

/// The failures of an address.
#[derive(Debug, Clone, Copy, PartialEq, Eq, Structural)]
pub struct FailureRecord {
    pub consecutive_failures: u32,
    pub last_failure_at: Time,
    pub blocked_until: Option<Time>,
}

/// The challenges, the trusted users, and the events and failures per address.
pub struct CaptchaGate {
    pub challenges: Table<CaptchaChallenge>,
    pub trusted: Vec<TrustedUser>,
    pub events: Table<u32>,
    pub failures: Table<FailureRecord>,
}

impl CaptchaGate {
    pub open spec fn wf(&self) -> bool {
        self.challenges.wf() && self.events.wf() && self.failures.wf()
    }

    pub fn new() -> (r: Self)
        ensures
            r.wf(),
            r.challenges@ == Map::<Seq<char>, CaptchaChallenge>::empty(),
            r.trusted@ == Seq::<TrustedUser>::empty(),
            r.events@ == Map::<Seq<char>, u32>::empty(),
            r.failures@ == Map::<Seq<char>, FailureRecord>::empty(),
    {
        CaptchaGate {
            challenges: Table::new(),
            trusted: Vec::new(),
            events: Table::new(),
            failures: Table::new(),
        }
    }

    /// The consecutive failures recorded for an address.
    pub open spec fn failure_count(&self, ip: Seq<char>) -> nat {
        if self.failures@.contains_key(ip) {
            self.failures@[ip].consecutive_failures as nat
        } else {
            0
        }
    }

    /// The events recorded for an address.
    pub open spec fn event_count(&self, ip: Seq<char>) -> nat {
        if self.events@.contains_key(ip) {
            self.events@[ip] as nat
        } else {
            0
        }
    }

    /// The address has to wait.
    pub open spec fn backed_off(&self, ip: Seq<char>, now: Time) -> bool {
        &&& self.failures@.contains_key(ip)
        &&& self.failures@[ip].blocked_until is Some
        &&& now < self.failures@[ip].blocked_until->0
    }

    /// What the end of a verification by an address does to its failures and events.
    pub open spec fn noted_outcome(
        &self,
        after: CaptchaGate,
        ip: Seq<char>,
        verified: bool,
        now: Time,
        r: u32,
    ) -> bool {
        if verified {
            &&& r == 0
            &&& after.failures@ == self.failures@.remove(ip)
            &&& after.events@ == self.events@.remove(ip)
        } else {
            &&& r == self.failure_count(ip) + 1
            &&& after.failures@ == self.failures@.insert(
                ip,
                failed_again(failure_record(self.failures@, ip), now),
            )
            &&& after.events == self.events
        }
    }

    /// A request has to pass a challenge.
    pub open spec fn challenges_request(
        &self,
        user_id: Option<Seq<char>>,
        ip: Seq<char>,
        threshold: nat,
        now: Time,
    ) -> bool {
        match user_id {
            Some(id) => id.len() == 0 || (!self.trusts(id, ip, now) && self.suspects(
                ip,
                threshold,
            )),
            None => true,
        }
    }

    /// The address has had as many events as the threshold.
    pub open spec fn suspects(&self, ip: Seq<char>, threshold: nat) -> bool {
        self.event_count(ip) >= threshold
    }

    /// The user is trusted at the address.
    pub open spec fn trusts(&self, user_id: Seq<char>, ip: Seq<char>, now: Time) -> bool {
        exists|i: int|
            0 <= i < self.trusted.len() && (#[trigger] self.trusted[i]).user_id@ == user_id
                && self.trusted[i].ip@ == ip && self.trusted[i].trusted_until > now
    }
}

/// A number doubled `n` times.
pub open spec fn doubled(base: nat, n: nat) -> nat
    decreases n,
{
    if n == 0 {
        base
    } else {
        2 * doubled(base, (n - 1) as nat)
    }
}

/// How long an address has to wait after so many failures, in seconds: the
/// base, doubled for each failure past the threshold (ten times at most), and
/// never more than the longest wait.
pub open spec fn backoff_secs(failures: nat) -> nat {
    let past = (failures - BACKOFF_FAILURE_THRESHOLD) as nat;
    let wait = doubled(
        BASE_BACKOFF_SECS as nat,
        if past > 10 {
            10
        } else {
            past
        },
    );
    if wait > MAX_BACKOFF_SECS {
        MAX_BACKOFF_SECS as nat
    } else {
        wait
    }
}

/// How long an address has to wait after so many failures, in seconds.
fn compute_backoff(failures: u32) -> (r: i64)
    requires
        failures >= BACKOFF_FAILURE_THRESHOLD,
    ensures
        r == backoff_secs(failures as nat),
        BASE_BACKOFF_SECS <= r <= MAX_BACKOFF_SECS,
{
    let past: u32 = failures - BACKOFF_FAILURE_THRESHOLD;
    let exponent: u32 = if past > 10 { 10 } else { past };
    let mut wait: i64 = BASE_BACKOFF_SECS;
    let mut i: u32 = 0;
    while i < exponent
        invariant
            i <= exponent <= 10,
            wait == doubled(BASE_BACKOFF_SECS as nat, i as nat),
            BASE_BACKOFF_SECS <= wait,
            i <= 9 ==> wait <= 5 * 512,
            i == 10 ==> wait <= 5 * 1024,
            i == 0 ==> wait == 5,
            i == 1 ==> wait == 10,
            i == 2 ==> wait == 20,
            i == 3 ==> wait == 40,
            i == 4 ==> wait == 80,
            i == 5 ==> wait == 160,
            i == 6 ==> wait == 320,
            i == 7 ==> wait == 640,
            i == 8 ==> wait == 1280,
            i == 9 ==> wait == 2560,
        decreases exponent - i,
    {
        wait = wait * 2;
        i = i + 1;
    }
    if wait > MAX_BACKOFF_SECS {
        MAX_BACKOFF_SECS
    } else {
        wait
    }
}

/// The record of an address after one more failure at `now`.
pub open spec fn failed_again(before: Option<FailureRecord>, now: Time) -> FailureRecord {
    let count = match before {
        Some(record) => record.consecutive_failures + 1,
        None => 1,
    };
    FailureRecord {
        consecutive_failures: count as u32,
        last_failure_at: now,
        blocked_until: if count >= BACKOFF_FAILURE_THRESHOLD {
            Some((now + backoff_secs(count as nat) * SECOND) as i128)
        } else {
            match before {
                Some(record) => record.blocked_until,
                None => None,
            }
        },
    }
}

/// The failure record of an address, if it has one.
pub open spec fn failure_record(failures: Map<Seq<char>, FailureRecord>, ip: Seq<char>) -> Option<
    FailureRecord,
> {
    if failures.contains_key(ip) {
        Some(failures[ip])
    } else {
        None
    }
}

/// Records a failed attempt of an address at the time `now`, and returns its
/// consecutive failures.
pub fn record_captcha_failure_at(gate: &mut CaptchaGate, ip: &str, now: Time) -> (r: u32)
    requires
        old(gate).wf(),
        old(gate).failure_count(ip@) < u32::MAX,
        TIME_MIN <= now <= TIME_MAX,
    ensures
        final(gate).wf(),
        final(gate).challenges == old(gate).challenges,
        final(gate).trusted == old(gate).trusted,
        final(gate).events == old(gate).events,
        final(gate).failures@ == old(gate).failures@.insert(
            ip@,
            failed_again(failure_record(old(gate).failures@, ip@), now),
        ),
        r == old(gate).failure_count(ip@) + 1,
{
    let mut record = match gate.failures.get(ip) {
        Some(record) => *record,
        None => FailureRecord {
            consecutive_failures: 0,
            last_failure_at: now,
            blocked_until: None,
        },
    };
    record.consecutive_failures = record.consecutive_failures + 1;
    record.last_failure_at = now;
    if record.consecutive_failures >= BACKOFF_FAILURE_THRESHOLD {
        let wait: i64 = compute_backoff(record.consecutive_failures);
        record.blocked_until = Some(now + wait as i128 * SECOND);
    }
    let count = record.consecutive_failures;
    let _previous = gate.failures.insert(ip.to_owned(), record);
    count
}

/// Records a failed attempt of an address, and returns its consecutive
/// failures.
pub fn record_captcha_failure(gate: &mut CaptchaGate, ip: &str) -> (r: u32)
    requires
        old(gate).wf(),
        old(gate).failure_count(ip@) < u32::MAX,
    ensures
        final(gate).wf(),
        final(gate).challenges == old(gate).challenges,
        final(gate).trusted == old(gate).trusted,
        final(gate).events == old(gate).events,
        exists|now: Time|
            wall_clock_shows(now) && final(gate).failures@ == old(gate).failures@.insert(
                ip@,
                #[trigger] failed_again(failure_record(old(gate).failures@, ip@), now),
            ),
        r == old(gate).failure_count(ip@) + 1,
{
    let now = utc_now();
    record_captcha_failure_at(gate, ip, now)
}

/// So many consecutive failures count against the reputation of an address.
pub open spec fn flag_due(failures: int) -> bool {
    failures >= REPUTATION_FLAG_THRESHOLD && failures % REPUTATION_FLAG_THRESHOLD as int == 0
}

/// Whether the reputation of an address has to suffer for so many consecutive
/// failures: every fifth one counts.
pub fn reputation_flag_due(failures: u32) -> (r: bool)
    ensures
        r == flag_due(failures as int),
{
    failures >= REPUTATION_FLAG_THRESHOLD && failures % REPUTATION_FLAG_THRESHOLD == 0
}

/// Forgets the failures of an address, after it passed a challenge.
pub fn record_captcha_success(gate: &mut CaptchaGate, ip: &str)
    requires
        old(gate).wf(),
    ensures
        final(gate).wf(),
        final(gate).challenges == old(gate).challenges,
        final(gate).trusted == old(gate).trusted,
        final(gate).events == old(gate).events,
        final(gate).failures@ == old(gate).failures@.remove(ip@),
{
    let _record = gate.failures.remove(ip);
}

/// Whether an address has to wait at the time `now`.
pub fn is_backoff_active_at(gate: &CaptchaGate, ip: &str, now: Time) -> (r: bool)
    requires
        gate.wf(),
    ensures
        r == gate.backed_off(ip@, now),
{
    match gate.failures.get(ip) {
        Some(record) => match record.blocked_until {
            Some(until) => now < until,
            None => false,
        },
        None => false,
    }
}

/// Whether an address has to wait.
pub fn is_backoff_active(gate: &CaptchaGate, ip: &str) -> (r: bool)
    requires
        gate.wf(),
    ensures
        exists|now: Time| wall_clock_shows(now) && r == #[trigger] gate.backed_off(ip@, now),
{
    let now = utc_now();
    is_backoff_active_at(gate, ip, now)
}

/// The consecutive failures recorded for an address.
pub fn consecutive_failures_for_ip(gate: &CaptchaGate, ip: &str) -> (r: u32)
    requires
        gate.wf(),
    ensures
        r == gate.failure_count(ip@),
{
    match gate.failures.get(ip) {
        Some(record) => record.consecutive_failures,
        None => 0,
    }
}

/// The address of a client by the headers that proxies set.
pub open spec fn client_address(
    forwarded_for: Option<Seq<char>>,
    real_ip: Option<Seq<char>>,
) -> Seq<char> {
    match forwarded_for {
        Some(list) => trimmed(split(list, ',')[0]),
        None => match real_ip {
            Some(ip) => ip,
            None => "unknown"@,
        },
    }
}

/// The address of a client, from the headers that proxies set: the first entry
/// of the forwarding list, else the real address, else unknown.
pub fn extract_ip(forwarded_for: Option<&str>, real_ip: Option<&str>) -> (r: String)
    ensures
        r@ == client_address(name_option(forwarded_for), name_option(real_ip)),
{
    match forwarded_for {
        Some(list) => {
            let pieces = split_text(list, ',');
            proof {
                lemma_split_nonempty(list@, ',');
                assert(texts(pieces@).len() == pieces.len());
                assert(texts(pieces@)[0] == pieces[0]@);
            }
            trim(pieces[0].as_str())
        },
        None => match real_ip {
            Some(ip) => ip.to_owned(),
            None => "unknown".to_owned(),
        },
    }
}

/// The user of a request, from its header; an empty one counts as absent.
pub fn extract_user_id(user_id: Option<&str>) -> (r: Option<String>)
    ensures
        text_option(r) == match user_id {
            Some(id) => if id@.len() == 0 {
                None
            } else {
                Some(id@)
            },
            None => None,
        },
{
    match user_id {
        Some(id) => {
            if id.is_empty() {
                None
            } else {
                Some(id.to_owned())
            }
        },
        None => None,
    }
}

/// Whether a user is trusted at an address at the time `now`.
pub fn is_trusted_user_at(user_id: &str, ip: &str, gate: &CaptchaGate, now: Time) -> (r: bool)
    ensures
        r == gate.trusts(user_id@, ip@, now),
{
    let mut i: usize = 0;
    while i < gate.trusted.len()
        invariant
            i <= gate.trusted.len(),
            forall|j: int|
                0 <= j < i ==> !((#[trigger] gate.trusted[j]).user_id@ == user_id@
                    && gate.trusted[j].ip@ == ip@ && gate.trusted[j].trusted_until > now),
        decreases gate.trusted.len() - i,
    {
        let user = &gate.trusted[i];
        if same(user.user_id.as_str(), user_id) && same(user.ip.as_str(), ip) && user.trusted_until
            > now {
            return true;
        }
        i = i + 1;
    }
    false
}

/// Whether a user is trusted at an address.
pub fn is_trusted_user(user_id: &str, ip: &str, gate: &CaptchaGate) -> (r: bool)
    ensures
        exists|now: Time| wall_clock_shows(now) && r == #[trigger] gate.trusts(user_id@, ip@, now),
{
    let now = utc_now();
    is_trusted_user_at(user_id, ip, gate, now)
}

/// The number of events from which on an address is suspicious, from the
/// setting, where that is a number.
pub open spec fn threshold_of(setting: Option<Seq<char>>) -> nat {
    match setting {
        Some(text) => match parse_unsigned(text, u32::MAX as nat) {
            Some(n) => n,
            None => DEFAULT_SUSPICIOUS_THRESHOLD as nat,
        },
        None => DEFAULT_SUSPICIOUS_THRESHOLD as nat,
    }
}

/// The number of events from which on an address is suspicious.
pub fn suspicious_threshold(setting: Option<&str>) -> (r: u32)
    ensures
        r == threshold_of(
            match setting {
                Some(text) => Some(text@),
                None => None,
            },
        ),
{
    match setting {
        Some(text) => match parse_u32(text) {
            Some(n) => n,
            None => DEFAULT_SUSPICIOUS_THRESHOLD,
        },
        None => DEFAULT_SUSPICIOUS_THRESHOLD,
    }
}

/// Whether an address has had as many events as the threshold.
pub fn is_suspicious(ip: &str, gate: &CaptchaGate, threshold: u32) -> (r: bool)
    requires
        gate.wf(),
    ensures
        r == gate.suspects(ip@, threshold as nat),
{
    let count: u32 = match gate.events.get(ip) {
        Some(n) => *n,
        None => 0,
    };
    count >= threshold
}

/// Counts an event for an address.
pub fn record_event_for_ip(gate: &mut CaptchaGate, ip: &str)
    requires
        old(gate).wf(),
        old(gate).event_count(ip@) < u32::MAX,
    ensures
        final(gate).wf(),
        final(gate).challenges == old(gate).challenges,
        final(gate).trusted == old(gate).trusted,
        final(gate).failures == old(gate).failures,
        final(gate).events@ == old(gate).events@.insert(
            ip@,
            (old(gate).event_count(ip@) + 1) as u32,
        ),
{
    let count: u32 = match gate.events.get(ip) {
        Some(n) => *n,
        None => 0,
    };
    let _previous = gate.events.insert(ip.to_owned(), count + 1);
}

/// Forgets the events of an address.
pub fn reset_event_counter_for_ip(gate: &mut CaptchaGate, ip: &str)
    requires
        old(gate).wf(),
    ensures
        final(gate).wf(),
        final(gate).challenges == old(gate).challenges,
        final(gate).trusted == old(gate).trusted,
        final(gate).failures == old(gate).failures,
        final(gate).events@ == old(gate).events@.remove(ip@),
{
    let _count = gate.events.remove(ip);
}

/// The challenges that have not expired at `now`.
pub open spec fn unexpired(challenges: Map<Seq<char>, CaptchaChallenge>, now: Time) -> Map<
    Seq<char>,
    CaptchaChallenge,
> {
    Map::new(
        |k: Seq<char>| challenges.contains_key(k) && challenges[k].expires_at > now,
        |k: Seq<char>| challenges[k],
    )
}

fn evict_expired(challenges: &mut Table<CaptchaChallenge>, now: Time)
    requires
        old(challenges).wf(),
    ensures
        final(challenges).wf(),
        final(challenges)@ == unexpired(old(challenges)@, now),
{
    let ghost before = challenges@;
    let mut i: usize = 0;
    while i < challenges.len()
        invariant
            challenges.wf(),
            i <= challenges.keys().len(),
            forall|k: Seq<char>| #[trigger]
                challenges@.contains_key(k) ==> before.contains_key(k) && challenges@[k]
                    == before[k],
            forall|k: Seq<char>| #[trigger]
                before.contains_key(k) ==> challenges@.contains_key(k) || before[k].expires_at
                    <= now,
            forall|j: int|
                0 <= j < i ==> challenges@[#[trigger] challenges.keys()[j]].expires_at > now,
        decreases challenges.keys().len() - i,
    {
        let expired = challenges.value_at(i).expires_at <= now;
        if expired {
            let ghost earlier = *challenges;
            let key = challenges.key_at(i).to_owned();
            proof {
                lemma_index_of(earlier.keys(), i as int);
            }
            let _challenge = challenges.remove(key.as_str());
            proof {
                assert(challenges.keys() == earlier.keys().remove(i as int));
                assert forall|j: int| 0 <= j < i implies challenges@[#[trigger] challenges.keys()[j]].expires_at
                    > now by {
                    assert(challenges.keys()[j] == earlier.keys()[j]);
                    assert(earlier.keys()[j] != earlier.keys()[i as int]);
                }
            }
        } else {
            i = i + 1;
        }
    }
    proof {
        assert forall|k: Seq<char>| #[trigger] challenges@.contains_key(k) implies before[k].expires_at
            > now by {
            let j = challenges.keys().index_of(k);
            assert(challenges.keys().contains(k));
            assert(challenges.keys()[j] == k);
        }
        assert(challenges@ =~= unexpired(before, now));
    }
}

/// The challenge with the given contents.
pub open spec fn is_challenge(
    c: CaptchaChallenge,
    id: Seq<char>,
    token: Seq<char>,
    site_key: Seq<char>,
    now: Time,
) -> bool {
    &&& c.id@ == id
    &&& c.token@ == token
    &&& c.site_key@ == site_key
    &&& c.expires_at == now + DEFAULT_CHALLENGE_TTL_SECS * SECOND
}

/// Makes a challenge with the given id and token at the time `now`. Expired
/// challenges are dropped on the way.
pub fn generate_challenge_with(
    gate: &mut CaptchaGate,
    site_key: &str,
    id: String,
    token: String,
    now: Time,
) -> (r: CaptchaChallenge)
    requires
        old(gate).wf(),
        TIME_MIN <= now <= TIME_MAX,
    ensures
        final(gate).wf(),
        final(gate).trusted == old(gate).trusted,
        final(gate).events == old(gate).events,
        final(gate).failures == old(gate).failures,
        is_challenge(r, id@, token@, site_key@, now),
        final(gate).challenges@ == unexpired(old(gate).challenges@, now).insert(id@, r),
{
    let key = id.clone();
    let challenge = CaptchaChallenge {
        id,
        token,
        expires_at: now + DEFAULT_CHALLENGE_TTL_SECS as i128 * SECOND,
        site_key: site_key.to_owned(),
    };
    evict_expired(&mut gate.challenges, now);
    let _previous = gate.challenges.insert(key, challenge.clone());
    challenge
}

/// Makes a challenge.
pub fn generate_challenge(gate: &mut CaptchaGate, site_key: &str) -> (r: CaptchaChallenge)
    requires
        old(gate).wf(),
    ensures
        final(gate).wf(),
        final(gate).trusted == old(gate).trusted,
        final(gate).events == old(gate).events,
        final(gate).failures == old(gate).failures,
        is_new_id(r.id@),
        is_new_id(r.token@),
        exists|now: Time|
            wall_clock_shows(now)
                && #[trigger] is_challenge(r, r.id@, r.token@, site_key@, now) && final(gate).challenges@
                == unexpired(old(gate).challenges@, now).insert(r.id@, r),
{
    let id = new_id();
    let token = new_id();
    let now = utc_now();
    generate_challenge_with(gate, site_key, id, token, now)
}

/// What to do next in a verification.
#[derive(Debug)]
pub enum VerifyStep {
    /// The answer is known.
    Answer(CaptchaVerifyResponse),
    /// The provider has to be asked, with this secret and this token.
    Ask { secret: String, token: String },
}

/// Why a verification fails before the provider is asked.
#[derive(Debug, Clone, Copy, PartialEq, Eq, Structural)]
pub enum ChallengeError {
    NotFound,
    Expired,
}

impl ChallengeError {
    pub open spec fn message_spec(self) -> Seq<char> {
        match self {
            ChallengeError::NotFound => "challenge not found"@,
            ChallengeError::Expired => "challenge has expired"@,
        }
    }

    /// The error in words.
    pub fn message(&self) -> (r: String)
        ensures
            r@ == self.message_spec(),
    {
        match self {
            ChallengeError::NotFound => "challenge not found".to_owned(),
            ChallengeError::Expired => "challenge has expired".to_owned(),
        }
    }
}

/// What is wrong with a challenge at `now`, if anything.
pub open spec fn challenge_fault(
    challenges: Map<Seq<char>, CaptchaChallenge>,
    id: Seq<char>,
    now: Time,
) -> Option<ChallengeError> {
    if !challenges.contains_key(id) {
        Some(ChallengeError::NotFound)
    } else if now > challenges[id].expires_at {
        Some(ChallengeError::Expired)
    } else {
        None
    }
}

/// What the first step of a verification does to the challenges and what it
/// returns. Without a secret every token is accepted and the challenge is used
/// up; with one the provider has to be asked.
pub open spec fn verification_begun(
    before: Map<Seq<char>, CaptchaChallenge>,
    after: Map<Seq<char>, CaptchaChallenge>,
    req: CaptchaVerifyRequest,
    secret_key: Seq<char>,
    session_token: Seq<char>,
    now: Time,
    r: Result<VerifyStep, ChallengeError>,
) -> bool {
    match r {
        Err(e) => challenge_fault(before, req.challenge_id@, now) == Some(e) && after == before,
        Ok(VerifyStep::Answer(response)) => {
            &&& challenge_fault(before, req.challenge_id@, now) is None
            &&& secret_key.len() == 0
            &&& after == before.remove(req.challenge_id@)
            &&& response.verified
            &&& text_option(response.session_token) == Some(session_token)
            &&& response.message@ == "CAPTCHA verified (development mode)"@
        },
        Ok(VerifyStep::Ask { secret, token }) => {
            &&& challenge_fault(before, req.challenge_id@, now) is None
            &&& secret_key.len() > 0
            &&& after == before
            &&& secret@ == secret_key
            &&& token@ == req.captcha_token@
        },
    }
}

/// The first step of a verification at the time `now`, with the session token
/// to be given out.
pub fn begin_verification_with(
    gate: &mut CaptchaGate,
    req: &CaptchaVerifyRequest,
    secret_key: &str,
    session_token: String,
    now: Time,
) -> (r: Result<VerifyStep, ChallengeError>)
    requires
        old(gate).wf(),
    ensures
        final(gate).wf(),
        final(gate).trusted == old(gate).trusted,
        final(gate).events == old(gate).events,
        final(gate).failures == old(gate).failures,
        verification_begun(
            old(gate).challenges@,
            final(gate).challenges@,
            *req,
            secret_key@,
            session_token@,
            now,
            r,
        ),
{
    match gate.challenges.get(req.challenge_id.as_str()) {
        None => {
            return Err(ChallengeError::NotFound);
        },
        Some(challenge) => {
            if now > challenge.expires_at {
                return Err(ChallengeError::Expired);
            }
        },
    }
    if secret_key.is_empty() {
        let _used = gate.challenges.remove(req.challenge_id.as_str());
        return Ok(
            VerifyStep::Answer(
                CaptchaVerifyResponse {
                    verified: true,
                    session_token: Some(session_token),
                    message: "CAPTCHA verified (development mode)".to_owned(),
                },
            ),
        );
    }
    Ok(VerifyStep::Ask { secret: secret_key.to_owned(), token: req.captcha_token.clone() })
}

/// The first step of a verification.
pub fn begin_verification(gate: &mut CaptchaGate, req: &CaptchaVerifyRequest, secret_key: &str) -> (r:
    Result<VerifyStep, ChallengeError>)
    requires
        old(gate).wf(),
    ensures
        final(gate).wf(),
        final(gate).trusted == old(gate).trusted,
        final(gate).events == old(gate).events,
        final(gate).failures == old(gate).failures,
        exists|session_token: Seq<char>, now: Time|
            wall_clock_shows(now) && is_new_id(session_token) && #[trigger] verification_begun(
                old(gate).challenges@,
                final(gate).challenges@,
                *req,
                secret_key@,
                session_token,
                now,
                r,
            ),
{
    let session_token = new_id();
    let now = utc_now();
    begin_verification_with(gate, req, secret_key, session_token, now)
}

/// The texts in a list of JSON values; other values are skipped.
pub open spec fn list_texts(items: Seq<JsonModel>) -> Seq<Seq<char>>
    decreases items.len(),
{
    if items.len() == 0 {
        Seq::empty()
    } else {
        match items.last() {
            JsonModel::Text(t) => list_texts(items.drop_last()).push(t),
            _ => list_texts(items.drop_last()),
        }
    }
}

/// Whether a reply of the provider reports success.
pub open spec fn reply_succeeds(body: JsonModel) -> bool {
    body.field("success"@) == Some(JsonModel::Bool(true))
}

/// The error codes of a reply of the provider, in a row.
pub open spec fn reply_codes(body: JsonModel) -> Seq<char> {
    match body.field("error-codes"@) {
        Some(JsonModel::List(items)) => join(list_texts(items), ", "@),
        _ => Seq::empty(),
    }
}

/// The message on a reply that reports a failure.
pub open spec fn failure_message(body: JsonModel) -> Seq<char> {
    if reply_codes(body).len() == 0 {
        "CAPTCHA verification failed"@
    } else {
        "CAPTCHA verification failed: "@ + reply_codes(body)
    }
}

/// The error codes of a reply of the provider, in a row.
fn read_codes(body: &JsonValue) -> (r: String)
    ensures
        r@ == reply_codes(body@),
{
    match body.get("error-codes") {
        Some(JsonValue::List(items)) => {
            let ghost all = body@.field("error-codes"@)->0->List_0;
            let mut codes: Vec<String> = Vec::new();
            let mut i: usize = 0;
            assert(all.take(0) =~= Seq::empty());
            assert(texts(codes@) =~= list_texts(all.take(0)));
            while i < items.len()
                invariant
                    i <= items.len(),
                    all.len() == items.len(),
                    forall|j: int| 0 <= j < items.len() ==> #[trigger] all[j] == items[j]@,
                    texts(codes@) == list_texts(all.take(i as int)),
                decreases items.len() - i,
            {
                let ghost earlier = texts(codes@);
                proof {
                    assert(all.take(i + 1).drop_last() =~= all.take(i as int));
                    assert(all.take(i + 1).last() == items[i as int]@);
                }
                if let Some(code) = items[i].as_str() {
                    codes.push(code.to_owned());
                    assert(texts(codes@) =~= earlier.push(code@));
                }
                i = i + 1;
            }
            assert(all.take(i as int) =~= all);
            join_texts(&codes, ", ")
        },
        _ => String::new(),
    }
}

/// What became of the question to the provider.
#[derive(Debug)]
pub enum ProviderReply {
    /// The request failed, for this reason.
    RequestFailed(String),
    /// The reply could not be read, for this reason.
    Unreadable(String),
    /// The reply.
    Body(JsonValue),
}

/// The session token of a success: an id and when the token ends, in seconds.
pub open spec fn session_token(id: Seq<char>, now: Time) -> Seq<char> {
    id + "."@ + decimal(((now + SESSION_TOKEN_TTL_SECS * SECOND) / SECOND as int) as nat)
}

/// What the second step of a verification does to the challenges and what it
/// returns: a success uses the challenge up, a failure leaves it.
pub open spec fn verification_finished(
    before: Map<Seq<char>, CaptchaChallenge>,
    after: Map<Seq<char>, CaptchaChallenge>,
    challenge_id: Seq<char>,
    reply: ProviderReply,
    session_id: Seq<char>,
    now: Time,
    r: Result<CaptchaVerifyResponse, String>,
) -> bool {
    match reply {
        ProviderReply::RequestFailed(reason) => {
            &&& after == before
            &&& r is Err
            &&& r->Err_0@ == "reCAPTCHA HTTP request failed: "@ + reason@
        },
        ProviderReply::Unreadable(reason) => {
            &&& after == before
            &&& r is Err
            &&& r->Err_0@ == "failed to parse reCAPTCHA response: "@ + reason@
        },
        ProviderReply::Body(body) => if reply_succeeds(body@) {
            &&& after == before.remove(challenge_id)
            &&& r is Ok
            &&& r->Ok_0.verified
            &&& text_option(r->Ok_0.session_token) == Some(session_token(session_id, now))
            &&& r->Ok_0.message@ == "CAPTCHA verified successfully"@
        } else {
            &&& after == before
            &&& r is Err
            &&& r->Err_0@ == failure_message(body@)
        },
    }
}

/// The second step of a verification at the time `now`, with the id for the
/// session token.
pub fn finish_verification_with(
    gate: &mut CaptchaGate,
    challenge_id: &str,
    reply: ProviderReply,
    session_id: String,
    now: Time,
) -> (r: Result<CaptchaVerifyResponse, String>)
    requires
        old(gate).wf(),
        0 <= now <= TIME_MAX,
    ensures
        final(gate).wf(),
        final(gate).trusted == old(gate).trusted,
        final(gate).events == old(gate).events,
        final(gate).failures == old(gate).failures,
        verification_finished(
            old(gate).challenges@,
            final(gate).challenges@,
            challenge_id@,
            reply,
            session_id@,
            now,
            r,
        ),
{
    match reply {
        ProviderReply::RequestFailed(reason) => {
            let mut message = "reCAPTCHA HTTP request failed: ".to_owned();
            message.append(reason.as_str());
            Err(message)
        },
        ProviderReply::Unreadable(reason) => {
            let mut message = "failed to parse reCAPTCHA response: ".to_owned();
            message.append(reason.as_str());
            Err(message)
        },
        ProviderReply::Body(body) => {
            let success = match body.get("success") {
                Some(value) => match value.as_bool() {
                    Some(b) => b,
                    None => false,
                },
                None => false,
            };
            if !success {
                let codes = read_codes(&body);
                if codes.as_str().is_empty() {
                    return Err("CAPTCHA verification failed".to_owned());
                }
                let mut message = "CAPTCHA verification failed: ".to_owned();
                message.append(codes.as_str());
                return Err(message);
            }
            let _used = gate.challenges.remove(challenge_id);
            let mut token = session_id;
            token.append(".");
            let end: i128 = now + SESSION_TOKEN_TTL_SECS as i128 * SECOND;
            push_decimal(&mut token, (end / SECOND) as u128);
            Ok(
                CaptchaVerifyResponse {
                    verified: true,
                    session_token: Some(token),
                    message: "CAPTCHA verified successfully".to_owned(),
                },
            )
        },
    }
}

/// The second step of a verification.
pub fn finish_verification(gate: &mut CaptchaGate, challenge_id: &str, reply: ProviderReply) -> (r:
    Result<CaptchaVerifyResponse, String>)
    requires
        old(gate).wf(),
    ensures
        final(gate).wf(),
        final(gate).trusted == old(gate).trusted,
        final(gate).events == old(gate).events,
        final(gate).failures == old(gate).failures,
        exists|session_id: Seq<char>, now: Time|
            wall_clock_shows(now) && is_new_id(session_id) && #[trigger] verification_finished(
                old(gate).challenges@,
                final(gate).challenges@,
                challenge_id@,
                reply,
                session_id,
                now,
                r,
            ),
{
    let session_id = new_id();
    let now = utc_now();
    finish_verification_with(gate, challenge_id, reply, session_id, now)
}

/// Whether a request has to pass a challenge at the time `now`: not if its
/// user is known and trusted at the address, nor if the user is known and the
/// address is not suspicious.
pub fn needs_challenge_at(
    gate: &CaptchaGate,
    user_id: Option<&str>,
    ip: &str,
    threshold: u32,
    now: Time,
) -> (r: bool)
    requires
        gate.wf(),
    ensures
        r == gate.challenges_request(
            match user_id {
                Some(id) => Some(id@),
                None => None,
            },
            ip@,
            threshold as nat,
            now,
        ),
{
    match user_id {
        Some(id) => {
            if id.is_empty() {
                return true;
            }
            if is_trusted_user_at(id, ip, gate, now) {
                return false;
            }
            is_suspicious(ip, gate, threshold)
        },
        None => true,
    }
}

/// Records how a verification by an address ended at the time `now`: a success
/// clears its failures and events, anything else counts as a failure. Returns
/// the consecutive failures.
pub fn record_outcome_at(gate: &mut CaptchaGate, ip: &str, verified: bool, now: Time) -> (r: u32)
    requires
        old(gate).wf(),
        old(gate).failure_count(ip@) < u32::MAX,
        TIME_MIN <= now <= TIME_MAX,
    ensures
        final(gate).wf(),
        final(gate).challenges == old(gate).challenges,
        final(gate).trusted == old(gate).trusted,
        old(gate).noted_outcome(*final(gate), ip@, verified, now, r),
{
    if verified {
        record_captcha_success(gate, ip);
        reset_event_counter_for_ip(gate, ip);
        0
    } else {
        record_captcha_failure_at(gate, ip, now)
    }
}

/// The trusted users whose trust has not ended, in their order.
pub open spec fn active_users(users: Seq<TrustedUser>, now: Time) -> Seq<TrustedUser>
    decreases users.len(),
{
    if users.len() == 0 {
        Seq::empty()
    } else if users.last().trusted_until > now {
        active_users(users.drop_last(), now).push(users.last())
    } else {
        active_users(users.drop_last(), now)
    }
}

/// The trusted users whose trust has not ended at `now`.
pub fn active_trusted_users_at(gate: &CaptchaGate, now: Time) -> (r: Vec<TrustedUser>)
    ensures
        r@ == active_users(gate.trusted@, now),
{
    let mut out: Vec<TrustedUser> = Vec::new();
    let mut i: usize = 0;
    assert(gate.trusted@.take(0) =~= Seq::empty());
    while i < gate.trusted.len()
        invariant
            i <= gate.trusted.len(),
            out@ == active_users(gate.trusted@.take(i as int), now),
        decreases gate.trusted.len() - i,
    {
        proof {
            assert(gate.trusted@.take(i + 1).drop_last() =~= gate.trusted@.take(i as int));
            assert(gate.trusted@.take(i + 1).last() == gate.trusted[i as int]);
        }
        if gate.trusted[i].trusted_until > now {
            out.push(gate.trusted[i].clone());
        }
        i = i + 1;
    }
    assert(gate.trusted@.take(i as int) =~= gate.trusted@);
    out
}

/// The trusted users without the entries of a user at an address.
pub open spec fn other_users(users: Seq<TrustedUser>, user_id: Seq<char>, ip: Seq<char>) -> Seq<
    TrustedUser,
>
    decreases users.len(),
{
    if users.len() == 0 {
        Seq::empty()
    } else {
        let rest = other_users(users.drop_last(), user_id, ip);
        if users.last().user_id@ == user_id && users.last().ip@ == ip {
            rest
        } else {
            rest.push(users.last())
        }
    }
}

/// The duration of trust, in seconds, or the default. A number beyond the signed
/// ones counts as negative: the trust has ended already.
pub open spec fn trust_secs(duration: Option<u64>) -> int {
    match duration {
        Some(secs) => if secs <= i64::MAX {
            secs as int
        } else {
            secs - 0x1_0000_0000_0000_0000
        },
        None => DEFAULT_TRUST_SECS as int,
    }
}

/// What trusting a user at `now` does to the trusted users and what it returns:
/// an earlier entry of the same user and address is replaced. There is no entry
/// where the trust would end outside the calendar.
pub open spec fn trusting(
    before: Seq<TrustedUser>,
    after: Seq<TrustedUser>,
    user_id: Seq<char>,
    ip: Seq<char>,
    duration: Option<u64>,
    now: Time,
    r: Option<TrustedUser>,
) -> bool {
    let end = now + trust_secs(duration) * SECOND;
    match r {
        Some(user) => {
            &&& TIME_MIN <= end <= TIME_MAX
            &&& user.user_id@ == user_id
            &&& user.ip@ == ip
            &&& user.trusted_until == end
            &&& after == other_users(before, user_id, ip).push(user)
        },
        None => !(TIME_MIN <= end <= TIME_MAX) && after == before,
    }
}

/// Trusts a user at an address from `now` on for the given number of seconds.
pub fn add_trusted_user_at(
    gate: &mut CaptchaGate,
    user_id: &str,
    ip: &str,
    duration_secs: Option<u64>,
    now: Time,
) -> (r: Option<TrustedUser>)
    requires
        old(gate).wf(),
        TIME_MIN <= now <= TIME_MAX,
    ensures
        final(gate).wf(),
        final(gate).challenges == old(gate).challenges,
        final(gate).events == old(gate).events,
        final(gate).failures == old(gate).failures,
        trusting(
            old(gate).trusted@,
            final(gate).trusted@,
            user_id@,
            ip@,
            duration_secs,
            now,
            r,
        ),
{
    let secs: i128 = match duration_secs {
        Some(secs) => if secs <= i64::MAX as u64 {
            secs as i128
        } else {
            secs as i128 - 0x1_0000_0000_0000_0000
        },
        None => DEFAULT_TRUST_SECS as i128,
    };
    let trusted_until: Time = now + secs * SECOND;
    if trusted_until < TIME_MIN || trusted_until > TIME_MAX {
        return None;
    }
    let ghost before = gate.trusted@;
    let mut kept: Vec<TrustedUser> = Vec::new();
    let mut i: usize = 0;
    assert(before.take(0) =~= Seq::empty());
    while i < gate.trusted.len()
        invariant
            i <= gate.trusted.len(),
            before == gate.trusted@,
            kept@ == other_users(before.take(i as int), user_id@, ip@),
        decreases gate.trusted.len() - i,
    {
        proof {
            assert(before.take(i + 1).drop_last() =~= before.take(i as int));
            assert(before.take(i + 1).last() == before[i as int]);
        }
        let user = &gate.trusted[i];
        if !(same(user.user_id.as_str(), user_id) && same(user.ip.as_str(), ip)) {
            kept.push(user.clone());
        }
        i = i + 1;
    }
    assert(before.take(i as int) =~= before);
    let user = TrustedUser { user_id: user_id.to_owned(), ip: ip.to_owned(), trusted_until };
    kept.push(user.clone());
    gate.trusted = kept;
    Some(user)
}

/// Trusts a user at an address from now on for the given number of seconds.
pub fn add_trusted_user(
    gate: &mut CaptchaGate,
    user_id: &str,
    ip: &str,
    duration_secs: Option<u64>,
) -> (r: Option<TrustedUser>)
    requires
        old(gate).wf(),
    ensures
        final(gate).wf(),
        final(gate).challenges == old(gate).challenges,
        final(gate).events == old(gate).events,
        final(gate).failures == old(gate).failures,
        exists|now: Time|
            wall_clock_shows(now) && 0 <= now <= TIME_MAX && #[trigger] trusting(
                old(gate).trusted@,
                final(gate).trusted@,
                user_id@,
                ip@,
                duration_secs,
                now,
                r,
            ),
{
    let now = utc_now();
    add_trusted_user_at(gate, user_id, ip, duration_secs, now)
}

proof fn lemma_doubled_grows(base: nat, n: nat, m: nat)
    requires
        n <= m,
    ensures
        doubled(base, n) <= doubled(base, m),
    decreases m,
{
    if n < m {
        lemma_doubled_grows(base, n, (m - 1) as nat);
    }
}

/// A further failure never shortens the wait.
pub proof fn backoff_is_monotone(fewer: nat, more: nat)
    requires
        BACKOFF_FAILURE_THRESHOLD <= fewer <= more,
    ensures
        backoff_secs(fewer) <= backoff_secs(more) <= MAX_BACKOFF_SECS,
{
    let a = (fewer - BACKOFF_FAILURE_THRESHOLD) as nat;
    let b = (more - BACKOFF_FAILURE_THRESHOLD) as nat;
    lemma_doubled_grows(
        BASE_BACKOFF_SECS as nat,
        if a > 10 {
            10
        } else {
            a
        },
        if b > 10 {
            10
        } else {
            b
        },
    );
}

/// An address has to wait right after its third failure in a row and not
/// before.
pub proof fn waiting_starts_at_the_threshold(
    gate: CaptchaGate,
    after: CaptchaGate,
    ip: Seq<char>,
    now: Time,
)
    requires
        gate.failure_count(ip) < u32::MAX,
        TIME_MIN <= now <= TIME_MAX,
        !gate.backed_off(ip, now),
        after.failures@ == gate.failures@.insert(
            ip,
            failed_again(failure_record(gate.failures@, ip), now),
        ),
    ensures
        after.failure_count(ip) == gate.failure_count(ip) + 1,
        after.backed_off(ip, now) <==> after.failure_count(ip) >= BACKOFF_FAILURE_THRESHOLD,
{
    if after.failure_count(ip) >= BACKOFF_FAILURE_THRESHOLD {
        lemma_backoff_positive(after.failure_count(ip));
    }
}

proof fn lemma_backoff_positive(failures: nat)
    requires
        failures >= BACKOFF_FAILURE_THRESHOLD,
    ensures
        0 < backoff_secs(failures) <= MAX_BACKOFF_SECS,
{
    backoff_is_monotone(BACKOFF_FAILURE_THRESHOLD as nat, failures);
    assert(doubled(BASE_BACKOFF_SECS as nat, 0) == BASE_BACKOFF_SECS);
}

/// A success forgets the failures of an address and leaves the others'.
pub proof fn success_clears_failures(
    gate: CaptchaGate,
    after: CaptchaGate,
    ip: Seq<char>,
    other: Seq<char>,
    now: Time,
)
    requires
        after.failures@ == gate.failures@.remove(ip),
    ensures
        after.failure_count(ip) == 0,
        !after.backed_off(ip, now),
        other != ip ==> after.failure_count(other) == gate.failure_count(other),
{
}

/// A challenge that was met is used up: it cannot be met again.
pub proof fn challenges_are_used_up(
    before: Map<Seq<char>, CaptchaChallenge>,
    after: Map<Seq<char>, CaptchaChallenge>,
    id: Seq<char>,
    reply: ProviderReply,
    session_id: Seq<char>,
    now: Time,
    answer: CaptchaVerifyResponse,
    later: Time,
)
    requires
        verification_finished(before, after, id, reply, session_id, now, Ok(answer)),
    ensures
        answer.verified,
        challenge_fault(after, id, later) == Some(ChallengeError::NotFound),
{
}

/// A user is trusted at an address until the trust ends, and not beyond it,
/// whatever was recorded before.
pub proof fn trust_lasts_until_its_end(
    gate: CaptchaGate,
    after: CaptchaGate,
    user_id: Seq<char>,
    ip: Seq<char>,
    duration: Option<u64>,
    now: Time,
    user: TrustedUser,
    later: Time,
)
    requires
        trusting(gate.trusted@, after.trusted@, user_id, ip, duration, now, Some(user)),
    ensures
        after.trusts(user_id, ip, later) <==> later < user.trusted_until,
{
    let kept = other_users(gate.trusted@, user_id, ip);
    lemma_others_differ(gate.trusted@, user_id, ip);
    assert(after.trusted@[kept.len() as int] == user);
    if after.trusts(user_id, ip, later) {
        let i = choose|i: int|
            0 <= i < after.trusted.len() && (#[trigger] after.trusted[i]).user_id@ == user_id
                && after.trusted[i].ip@ == ip && after.trusted[i].trusted_until > later;
        if i < kept.len() {
            assert(after.trusted@[i] == kept[i]);
        }
    }
}

proof fn lemma_others_differ(users: Seq<TrustedUser>, user_id: Seq<char>, ip: Seq<char>)
    ensures
        forall|i: int|
            0 <= i < other_users(users, user_id, ip).len() ==> (#[trigger] other_users(
                users,
                user_id,
                ip,
            )[i]).user_id@ != user_id || other_users(users, user_id, ip)[i].ip@ != ip,
    decreases users.len(),
{
    if users.len() > 0 {
        let rest = other_users(users.drop_last(), user_id, ip);
        let all = other_users(users, user_id, ip);
        lemma_others_differ(users.drop_last(), user_id, ip);
        assert forall|i: int| 0 <= i < all.len() implies (#[trigger] all[i]).user_id@ != user_id
            || all[i].ip@ != ip by {
            if i < rest.len() {
                assert(all[i] == rest[i]);
            }
        }
    }
}

/// After the third failure in a row the wait is five seconds, and each further failure
/// doubles it, up to a quarter of an hour.
pub proof fn waits_double_up_to_a_quarter_of_an_hour(failures: nat)
    requires
        failures >= 3,
    ensures
        backoff_secs(3) == 5,
        backoff_secs(failures + 1) == if 2 * backoff_secs(failures) < 900 {
            2 * backoff_secs(failures)
        } else {
            900
        },
{
    reveal_with_fuel(doubled, 12);
}

/// An address that failed has to wait exactly as long as its failures ask for, counted
/// from the last one; with fewer than three it does not wait on their account. Other
/// addresses are not affected, and a success clears the failures.
pub proof fn failures_make_an_address_wait(
    gate: CaptchaGate,
    after: CaptchaGate,
    ip: Seq<char>,
    now: Time,
    later: Time,
    other: Seq<char>,
)
    requires
        gate.failure_count(ip) < u32::MAX,
        TIME_MIN <= now <= TIME_MAX,
        after.failures@ == gate.failures@.insert(
            ip,
            failed_again(failure_record(gate.failures@, ip), now),
        ),
        other != ip,
    ensures
        after.failure_count(ip) == gate.failure_count(ip) + 1,
        gate.failure_count(ip) >= 2 ==> (after.backed_off(ip, later) <==> later - now
            < backoff_secs(gate.failure_count(ip) + 1) * 1_000_000_000),
        !gate.failures@.contains_key(ip) ==> !after.backed_off(ip, later),
        after.failure_count(other) == gate.failure_count(other),
        after.backed_off(other, later) == gate.backed_off(other, later),
{
    let count = gate.failure_count(ip) + 1;
    if count >= 3 {
        backoff_is_monotone(3, count);
    }
}

/// A failure counts against the reputation of an address when it is the fifth in a row,
/// the tenth, and so on.
pub proof fn every_fifth_failure_is_flagged(failures: int)
    requires
        failures >= 0,
    ensures
        flag_due(failures) <==> exists|k: int| k >= 1 && failures == #[trigger] (5 * k),
{
    if flag_due(failures) {
        assert(failures == 5 * (failures / 5));
        assert(failures / 5 >= 1);
    }
    if exists|k: int| k >= 1 && failures == #[trigger] (5 * k) {
        let k = choose|k: int| k >= 1 && failures == #[trigger] (5 * k);
        assert(failures % 5 == 0);
    }
}

/// A request without a user has to pass a challenge. One of a trusted user does not, and
/// any other does exactly where its address has had as many events as the threshold.
pub proof fn challenges_meet_the_suspicious(
    gate: CaptchaGate,
    user_id: Seq<char>,
    ip: Seq<char>,
    threshold: nat,
    now: Time,
)
    ensures
        gate.challenges_request(None, ip, threshold, now),
        user_id.len() == 0 ==> gate.challenges_request(Some(user_id), ip, threshold, now),
        user_id.len() > 0 && gate.trusts(user_id, ip, now) ==> !gate.challenges_request(
            Some(user_id),
            ip,
            threshold,
            now,
        ),
        user_id.len() > 0 && !gate.trusts(user_id, ip, now) ==> (gate.challenges_request(
            Some(user_id),
            ip,
            threshold,
            now,
        ) <==> threshold == 0 || (gate.events@.contains_key(ip) && gate.events@[ip] >= threshold)),
{
}

/// A challenge can be met for five minutes and not longer; one that was never made, or is
/// used up, is not found.
pub proof fn challenges_live_for_five_minutes(
    challenges: Map<Seq<char>, CaptchaChallenge>,
    c: CaptchaChallenge,
    token: Seq<char>,
    site_key: Seq<char>,
    id: Seq<char>,
    now: Time,
    later: Time,
)
    requires
        is_challenge(c, id, token, site_key, now),
        TIME_MIN <= now <= TIME_MAX,
    ensures
        challenge_fault(challenges.insert(id, c), id, later) is None <==> later - now
            <= 300_000_000_000,
        later - now > 300_000_000_000 ==> challenge_fault(challenges.insert(id, c), id, later)
            == Some(ChallengeError::Expired),
        challenge_fault(challenges.remove(id), id, later) == Some(ChallengeError::NotFound),
        c.token@ == token,
        c.site_key@ == site_key,
{
}

/// A verification goes on exactly where its challenge is there and has not expired.
/// Without a secret it has succeeded and the challenge is used up; with one the provider
/// is asked about the token that came with the request. Otherwise nothing changes.
pub proof fn verifications_need_a_live_challenge(
    before: Map<Seq<char>, CaptchaChallenge>,
    after: Map<Seq<char>, CaptchaChallenge>,
    req: CaptchaVerifyRequest,
    secret_key: Seq<char>,
    token: Seq<char>,
    now: Time,
    r: Result<VerifyStep, ChallengeError>,
)
    requires
        verification_begun(before, after, req, secret_key, token, now, r),
    ensures
        r is Ok <==> before.contains_key(req.challenge_id@)
            && before[req.challenge_id@].expires_at >= now,
        r is Ok && secret_key.len() == 0 ==> r->Ok_0 is Answer && r->Ok_0->Answer_0.verified
            && !after.contains_key(req.challenge_id@),
        r is Ok && secret_key.len() > 0 ==> r->Ok_0 is Ask && r->Ok_0->token@ == req.captcha_token@
            && r->Ok_0->secret@ == secret_key && after == before,
        r is Err ==> after == before && (r->Err_0 is NotFound <==> !before.contains_key(
            req.challenge_id@,
        )),
{
}

/// A verification succeeds exactly where the provider's reply was read and reports
/// success; the challenge is then used up. Otherwise it stays, and there is no session.
pub proof fn verifications_follow_the_provider(
    before: Map<Seq<char>, CaptchaChallenge>,
    after: Map<Seq<char>, CaptchaChallenge>,
    challenge_id: Seq<char>,
    reply: ProviderReply,
    session_id: Seq<char>,
    now: Time,
    r: Result<CaptchaVerifyResponse, String>,
)
    requires
        verification_finished(before, after, challenge_id, reply, session_id, now, r),
    ensures
        r is Ok <==> (reply matches ProviderReply::Body(body) && body@.field("success"@) == Some(
            JsonModel::Bool(true),
        )),
        r matches Ok(response) ==> response.verified && response.session_token is Some
            && !after.contains_key(challenge_id),
        r is Err ==> after == before,
{
}

/// A user who was trusted is exempt at the address until the trust ends, a day later
/// where no duration was given, and not beyond. Nobody else becomes exempt.
pub proof fn trust_lasts_as_long_as_given(
    before: CaptchaGate,
    after: CaptchaGate,
    user_id: Seq<char>,
    ip: Seq<char>,
    duration: Option<u64>,
    now: Time,
    r: TrustedUser,
    later: Time,
    other_user: Seq<char>,
    other_ip: Seq<char>,
)
    requires
        trusting(before.trusted@, after.trusted@, user_id, ip, duration, now, Some(r)),
        other_user != user_id || other_ip != ip,
    ensures
        duration is None ==> (after.trusts(user_id, ip, later) <==> later - now
            < 86_400_000_000_000),
        duration matches Some(secs) ==> (secs < 0x8000_0000_0000_0000 ==> (after.trusts(
            user_id,
            ip,
            later,
        ) <==> later - now < secs * 1_000_000_000)),
        after.trusts(other_user, other_ip, later) <==> before.trusts(other_user, other_ip, later),
{
    let kept = other_users(before.trusted@, user_id, ip);
    let all = after.trusted@;
    lemma_other_users(before.trusted@, user_id, ip);
    assert(all[kept.len() as int] == r);
    assert(after.trusted[kept.len() as int] == r);
    if after.trusts(user_id, ip, later) {
        let i = choose|i: int|
            0 <= i < after.trusted.len() && (#[trigger] after.trusted[i]).user_id@ == user_id
                && after.trusted[i].ip@ == ip && after.trusted[i].trusted_until > later;
        if i < kept.len() {
            assert(kept[i] == all[i]);
        }
    }
    if after.trusts(other_user, other_ip, later) {
        let i = choose|i: int|
            0 <= i < after.trusted.len() && (#[trigger] after.trusted[i]).user_id@ == other_user
                && after.trusted[i].ip@ == other_ip && after.trusted[i].trusted_until > later;
        assert(i < kept.len());
        assert(kept[i] == all[i]);
        assert(kept.contains(kept[i]));
        let j = before.trusted@.index_of(kept[i]);
        assert(before.trusted[j] == kept[i]);
    }
    if before.trusts(other_user, other_ip, later) {
        let i = choose|i: int|
            0 <= i < before.trusted.len() && (#[trigger] before.trusted[i]).user_id@ == other_user
                && before.trusted[i].ip@ == other_ip && before.trusted[i].trusted_until > later;
        assert(before.trusted@[i] == before.trusted[i]);
        assert(kept.contains(before.trusted@[i]));
        let j = kept.index_of(before.trusted@[i]);
        assert(after.trusted[j] == before.trusted[i]);
    }
}

proof fn lemma_other_users(users: Seq<TrustedUser>, user_id: Seq<char>, ip: Seq<char>)
    ensures
        forall|i: int|
            0 <= i < other_users(users, user_id, ip).len() ==> {
                let u = #[trigger] other_users(users, user_id, ip)[i];
                users.contains(u) && (u.user_id@ != user_id || u.ip@ != ip)
            },
        forall|i: int|
            0 <= i < users.len() && ((#[trigger] users[i]).user_id@ != user_id || users[i].ip@
                != ip) ==> other_users(users, user_id, ip).contains(users[i]),
    decreases users.len(),
{
    if users.len() > 0 {
        let rest = users.drop_last();
        let earlier = other_users(rest, user_id, ip);
        let kept = other_users(users, user_id, ip);
        lemma_other_users(rest, user_id, ip);
        assert forall|i: int| 0 <= i < kept.len() implies ({
            let u = #[trigger] kept[i];
            users.contains(u) && (u.user_id@ != user_id || u.ip@ != ip)
        }) by {
            if i < earlier.len() {
                assert(kept[i] == earlier[i]);
                assert(users[rest.index_of(earlier[i])] == earlier[i]);
            } else {
                assert(users[users.len() - 1] == kept[i]);
            }
        }
        assert forall|i: int|
            0 <= i < users.len() && ((#[trigger] users[i]).user_id@ != user_id || users[i].ip@
                != ip) implies kept.contains(users[i]) by {
            if i < rest.len() {
                assert(rest[i] == users[i]);
                assert(kept[earlier.index_of(rest[i])] == users[i]);
            } else {
                assert(kept[kept.len() - 1] == users[i]);
            }
        }
    }
}

/// The address of a client is the first entry of the forwarding list, which comes before
/// the real address; without either it is unknown.
pub proof fn forwarded_addresses_come_first(
    first: Seq<char>,
    rest: Seq<char>,
    real_ip: Option<Seq<char>>,
)
    requires
        !first.contains(','),
    ensures
        client_address(Some(first), real_ip) == trimmed(first),
        client_address(Some(first + seq![','] + rest), real_ip) == trimmed(first),
        real_ip matches Some(ip) ==> client_address(None, real_ip) == ip,
        real_ip is None ==> client_address(None, real_ip) == "unknown"@,
{
    crate::text::lemma_split_whole(first, ',');
    crate::text::lemma_split_first(first, rest, ',');
}

/// A success clears what counts against an address, and a failure adds to it; other
/// addresses are not affected.
pub proof fn outcomes_count_for_their_address(
    gate: CaptchaGate,
    after: CaptchaGate,
    ip: Seq<char>,
    verified: bool,
    now: Time,
    r: u32,
    other: Seq<char>,
)
    requires
        gate.noted_outcome(after, ip, verified, now, r),
        gate.failure_count(ip) < u32::MAX,
        other != ip,
    ensures
        after.failure_count(ip) == r,
        verified ==> r == 0 && after.event_count(ip) == 0 && !after.backed_off(ip, now),
        !verified ==> r == gate.failure_count(ip) + 1 && after.event_count(ip)
            == gate.event_count(ip),
        after.failure_count(other) == gate.failure_count(other),
        after.event_count(other) == gate.event_count(other),
{
}

/// An address is suspicious from ten events on, unless the setting is a number.
pub proof fn ten_events_are_suspicious(setting: Option<Seq<char>>)
    ensures
        setting is None ==> threshold_of(setting) == 10,
        setting matches Some(text) ==> match parse_unsigned(text, u32::MAX as nat) {
            Some(n) => threshold_of(setting) == n,
            None => threshold_of(setting) == 10,
        },
{
}

/// Making a challenge drops those that have expired and keeps the others.
pub proof fn expired_challenges_are_dropped(
    challenges: Map<Seq<char>, CaptchaChallenge>,
    now: Time,
    id: Seq<char>,
)
    ensures
        unexpired(challenges, now).contains_key(id) <==> challenges.contains_key(id)
            && challenges[id].expires_at > now,
        unexpired(challenges, now).contains_key(id) ==> unexpired(challenges, now)[id]
            == challenges[id],
{
}

/// The trusted users that are listed are those whose trust has not ended.
pub proof fn listed_users_are_trusted(users: Seq<TrustedUser>, now: Time, user: TrustedUser)
    ensures
        active_users(users, now).contains(user) <==> users.contains(user) && user.trusted_until
            > now,
{
    lemma_active_users(users, now);
    crate::ordering::lemma_filter_contains(users, |u: TrustedUser| u.trusted_until > now, user);
}

proof fn lemma_active_users(users: Seq<TrustedUser>, now: Time)
    ensures
        active_users(users, now) == users.filter(|u: TrustedUser| u.trusted_until > now),
    decreases users.len(),
{
    reveal(Seq::filter);
    if users.len() > 0 {
        lemma_active_users(users.drop_last(), now);
    }
}

/// A session token is the id that was drawn, and the second at which the session ends: an
/// hour after the success.
pub proof fn sessions_last_an_hour(id: Seq<char>, secs: nat, now: Time)
    requires
        0 <= now <= TIME_MAX,
        secs * 1_000_000_000 <= now < (secs + 1) * 1_000_000_000,
    ensures
        session_token(id, now) == id + "."@ + decimal(secs + 3600),
{
    assert((now + SESSION_TOKEN_TTL_SECS * SECOND) / SECOND as int == secs + 3600);
}

} // verus!
