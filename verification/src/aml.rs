//! Anti-money-laundering screening of addresses.
//!
//! An address is screened against a list of manual flags and against the
//! sanctions data of a provider, whose answers are cached for a while. Where
//! the provider cannot be reached, screening fails closed (the address is not
//! compliant) unless it is configured to fail open.
//!
//! Screening runs in two steps. The first decides what can be decided at once
//! or says what to ask the provider; the second turns the provider's answer
//! into the verdict.

use vstd::prelude::*;

use crate::clock::{
    monotonic_now, nanos_since, steady_clock_shows, utc_now, wall_clock_shows, Time,
};
use crate::table::Table;
use crate::text::{
    chars_of, copy_option, equals_ignoring_case, is_blank, parse_u64, parse_unsigned, same,
    same_ignoring_case, strip_trailing, text_option, trim, trimmed, without_trailing,
};

verus! {

pub const DEFAULT_CHAINALYSIS_URL: &'static str = "https://public.chainalysis.com/api/v1/address";

pub const DEFAULT_CACHE_TTL_SECS: u64 = 3_600;

pub const REQUEST_TIMEOUT_SECS: u64 = 10;

pub const MAX_ADDRESS_LEN: usize = 128;

pub const NANOS_PER_SEC: u128 = 1_000_000_000;

/// How screening is configured.
#[derive(Debug)]
pub struct AmlConfig {
    /// The provider is asked only where there is a key.
    pub api_key: Option<String>,
    pub api_url: String,
    /// How long an answer of the provider stays valid, in nanoseconds.
    pub cache_ttl: u128,
    /// Whether an address counts as compliant when the provider fails.
    pub fail_open: bool,
}

/// A setting that is present and not blank.
pub open spec fn meaningful(value: Option<Seq<char>>) -> Option<Seq<char>> {
    match value {
        Some(v) => if trimmed(v).len() > 0 {
            Some(v)
        } else {
            None
        },
        None => None,
    }
}

fn keep_meaningful(value: Option<String>) -> (r: Option<String>)
    ensures
        text_option(r) == meaningful(text_option(value)),
{
    match value {
        Some(v) => {
            if is_blank(v.as_str()) {
                None
            } else {
                Some(v)
            }
        },
        None => None,
    }
}

/// How long an answer stays valid, in nanoseconds, by the setting, where that is a
/// number of seconds.
pub open spec fn ttl_of(setting: Option<Seq<char>>) -> int {
    NANOS_PER_SEC * match setting {
        Some(text) => match parse_unsigned(text, u64::MAX as nat) {
            Some(secs) => secs,
            None => DEFAULT_CACHE_TTL_SECS as nat,
        },
        None => DEFAULT_CACHE_TTL_SECS as nat,
    }
}

/// Screening fails open by the setting.
pub open spec fn fails_open(setting: Option<Seq<char>>) -> bool {
    match setting {
        Some(text) => same_ignoring_case(text, "true"@) || text == "1"@,
        None => false,
    }
}

impl AmlConfig {
    /// The configuration from the values of its settings, where they are set:
    /// blank keys and addresses count as unset, and so does a time to live
    /// that is no number.
    pub fn from_settings(
        api_key: Option<String>,
        api_url: Option<String>,
        cache_ttl_secs: Option<String>,
        fail_open: Option<String>,
    ) -> (r: Self)
        ensures
            text_option(r.api_key) == meaningful(text_option(api_key)),
            r.api_url@ == match meaningful(text_option(api_url)) {
                Some(url) => url,
                None => DEFAULT_CHAINALYSIS_URL@,
            },
            r.cache_ttl == ttl_of(text_option(cache_ttl_secs)),
            r.fail_open == fails_open(text_option(fail_open)),
    {
        let secs: u64 = match cache_ttl_secs {
            Some(text) => match parse_u64(text.as_str()) {
                Some(secs) => secs,
                None => DEFAULT_CACHE_TTL_SECS,
            },
            None => DEFAULT_CACHE_TTL_SECS,
        };
        AmlConfig {
            api_key: keep_meaningful(api_key),
            api_url: match keep_meaningful(api_url) {
                Some(url) => url,
                None => DEFAULT_CHAINALYSIS_URL.to_owned(),
            },
            cache_ttl: NANOS_PER_SEC * secs as u128,
            fail_open: match fail_open {
                Some(text) => equals_ignoring_case(text.as_str(), "true") || same(text.as_str(), "1"),
                None => false,
            },
        }
    }
}

/// One sanctions identification returned by the provider.
#[derive(Debug, PartialEq, Eq)]
pub struct SanctionIdentification {
    pub category: Option<String>,
    pub name: Option<String>,
    pub description: Option<String>,
    pub url: Option<String>,
}

impl Clone for SanctionIdentification {
    fn clone(&self) -> (r: Self)
        ensures
            r == *self,
    {
        SanctionIdentification {
            category: copy_option(&self.category),
            name: copy_option(&self.name),
            description: copy_option(&self.description),
            url: copy_option(&self.url),
        }
    }
}

/// Where a screening verdict came from.
#[derive(Debug, Clone, Copy, PartialEq, Eq, Structural)]
pub enum AmlSource {
    /// The address is on the manual flag list.
    ManualFlag,
    /// Fresh answer of the provider.
    Chainalysis,
    /// Cached answer of the provider.
    Cache,
    /// The provider is not configured; only the manual list applied.
    ManualListOnly,
    /// The provider failed; the verdict follows the fail-open policy.
    ProviderUnavailable,
}

/// A screening verdict.
#[derive(Debug)]
pub struct AmlScreeningResult {
    pub address: String,
    pub compliant: bool,
    pub source: AmlSource,
    pub identifications: Vec<SanctionIdentification>,
    pub reason: Option<String>,
    pub checked_at: Time,
}

/// The screening clears its address.
pub open spec fn clears(screening: Result<AmlScreeningResult, AmlError>) -> bool {
    screening is Ok && screening->Ok_0.compliant
}

/// Whether an address is clear to receive funds: a screening has found it
/// compliant. Where the screening failed, it is not.
pub fn check_aml_compliance(screening: &Result<AmlScreeningResult, AmlError>) -> (r: bool)
    ensures
        r == clears(*screening),
{
    match screening {
        Ok(result) => result.compliant,
        Err(_) => false,
    }
}

/// A manually flagged address.
#[derive(Debug)]
pub struct AmlFlag {
    pub address: String,
    pub reason: String,
    pub flagged_by: String,
    pub flagged_at: Time,
}

impl Clone for AmlFlag {
    fn clone(&self) -> (r: Self)
        ensures
            r == *self,
    {
        AmlFlag {
            address: self.address.clone(),
            reason: self.reason.clone(),
            flagged_by: self.flagged_by.clone(),
            flagged_at: self.flagged_at,
        }
    }
}

/// An answer of the provider and when it came, in nanoseconds of the
/// screener's clock.
#[derive(Debug)]
pub struct CachedScreening {
    pub identifications: Vec<SanctionIdentification>,
    pub fetched_at: u128,
}

#[derive(Debug)]
pub enum AmlError {
    InvalidAddress,
    /// The provider could not be asked, for this reason.
    Provider(String),
}

impl AmlError {
    pub open spec fn message_spec(&self) -> Seq<char> {
        match self {
            AmlError::InvalidAddress => "invalid address"@,
            AmlError::Provider(reason) => "AML provider request failed: "@ + reason@,
        }
    }

    /// The error in words.
    pub fn message(&self) -> (r: String)
        ensures
            r@ == self.message_spec(),
    {
        match self {
            AmlError::InvalidAddress => "invalid address".to_owned(),
            AmlError::Provider(reason) => {
                let mut out = "AML provider request failed: ".to_owned();
                out.append(reason.as_str());
                out
            },
        }
    }
}

/// Whether a character is an ASCII letter or digit.
pub open spec fn is_alphanumeric(c: char) -> bool {
    ('0' <= c && c <= '9') || ('a' <= c && c <= 'z') || ('A' <= c && c <= 'Z')
}

/// An address is made of ASCII letters and digits, at most 128 of them.
pub open spec fn is_address(s: Seq<char>) -> bool {
    &&& 0 < s.len() <= MAX_ADDRESS_LEN
    &&& forall|i: int| 0 <= i < s.len() ==> is_alphanumeric(#[trigger] s[i])
}

/// The address without surrounding white space; an error if it is none.
pub fn normalize_address(address: &str) -> (r: Result<String, AmlError>)
    ensures
        match r {
            Ok(a) => a@ == trimmed(address@) && is_address(a@),
            Err(e) => e is InvalidAddress && !is_address(trimmed(address@)),
        },
{
    let name = trim(address);
    let chars = chars_of(name.as_str());
    if chars.is_empty() || chars.len() > MAX_ADDRESS_LEN {
        return Err(AmlError::InvalidAddress);
    }
    let mut i: usize = 0;
    while i < chars.len()
        invariant
            i <= chars.len(),
            chars@ == trimmed(address@),
            forall|j: int| 0 <= j < i ==> is_alphanumeric(#[trigger] chars[j]),
        decreases chars.len() - i,
    {
        let c = chars[i];
        if !(('0' <= c && c <= '9') || ('a' <= c && c <= 'z') || ('A' <= c && c <= 'Z')) {
            assert(!is_alphanumeric(trimmed(address@)[i as int]));
            return Err(AmlError::InvalidAddress);
        }
        i = i + 1;
    }
    Ok(name)
}

/// What flagging an address does to the flags and what it is answered.
pub open spec fn flagged(
    before: Map<Seq<char>, AmlFlag>,
    after: Map<Seq<char>, AmlFlag>,
    address: Seq<char>,
    reason: String,
    flagged_by: String,
    r: Result<AmlFlag, AmlError>,
) -> bool {
    match r {
        Ok(flag) => {
            &&& is_address(trimmed(address))
            &&& flag.address@ == trimmed(address)
            &&& flag.reason == reason
            &&& flag.flagged_by == flagged_by
            &&& after == before.insert(trimmed(address), flag)
        },
        Err(e) => e is InvalidAddress && !is_address(trimmed(address)) && after == before,
    }
}

/// What removing the flag of an address does to the flags and what it is answered.
pub open spec fn unflagged(
    before: Map<Seq<char>, AmlFlag>,
    after: Map<Seq<char>, AmlFlag>,
    address: Seq<char>,
    r: Result<bool, AmlError>,
) -> bool {
    match r {
        Ok(removed) => {
            &&& is_address(trimmed(address))
            &&& removed == before.contains_key(trimmed(address))
            &&& after == before.remove(trimmed(address))
        },
        Err(e) => e is InvalidAddress && !is_address(trimmed(address)) && after == before,
    }
}

/// What to do next in a screening.
#[derive(Debug)]
pub enum ScreeningStep {
    /// The verdict is known.
    Verdict(AmlScreeningResult),
    /// The provider has to be asked about the address, at this location and
    /// with this key. The screening began at `checked_at`.
    Ask { address: String, url: String, api_key: String, checked_at: Time },
}

/// The screener: its configuration, the cached answers and the manual flags.
pub struct AmlScreener {
    pub config: AmlConfig,
    pub cache: Table<CachedScreening>,
    pub flags: Table<AmlFlag>,
    pub origin: std::time::Instant,
}

/// The reason given for sanctions: the name of the first identification, else
/// its category.
pub open spec fn first_reason(ids: Seq<SanctionIdentification>) -> Option<Seq<char>> {
    if ids.len() == 0 {
        None
    } else {
        match ids[0].name {
            Some(name) => Some(name@),
            None => text_option(ids[0].category),
        }
    }
}

fn reason_of(ids: &Vec<SanctionIdentification>) -> (r: Option<String>)
    ensures
        text_option(r) == first_reason(ids@),
{
    if ids.is_empty() {
        None
    } else {
        match &ids[0].name {
            Some(name) => Some(name.clone()),
            None => copy_option(&ids[0].category),
        }
    }
}

impl AmlScreener {
    pub open spec fn wf(&self) -> bool {
        self.cache.wf() && self.flags.wf()
    }

    /// There is an answer about the address that is not too old.
    pub open spec fn has_fresh_answer(&self, address: Seq<char>, clock: u128) -> bool {
        &&& self.cache@.contains_key(address)
        &&& (if clock >= self.cache@[address].fetched_at {
            clock - self.cache@[address].fetched_at
        } else {
            0
        }) < self.config.cache_ttl
    }

    /// Where to ask the provider about an address.
    pub open spec fn location(&self, address: Seq<char>) -> Seq<char> {
        without_trailing(self.config.api_url@, '/') + "/"@ + address
    }

    pub fn new(config: AmlConfig) -> (r: Self)
        ensures
            r.wf(),
            r.config == config,
            r.cache@ == Map::<Seq<char>, CachedScreening>::empty(),
            r.flags@ == Map::<Seq<char>, AmlFlag>::empty(),
    {
        AmlScreener { config, cache: Table::new(), flags: Table::new(), origin: monotonic_now() }
    }

    /// The step is the first one of a screening of `address`. The manual flag
    /// comes first, then whether the provider is configured, then the cache.
    pub open spec fn is_first_step(
        &self,
        step: ScreeningStep,
        address: Seq<char>,
        clock: u128,
        now: Time,
    ) -> bool {
        match step {
            ScreeningStep::Verdict(v) => {
                &&& v.address@ == address
                &&& v.checked_at == now
                &&& if self.flags@.contains_key(address) {
                    &&& !v.compliant
                    &&& v.source == AmlSource::ManualFlag
                    &&& v.identifications@.len() == 0
                    &&& text_option(v.reason) == Some(self.flags@[address].reason@)
                } else if self.config.api_key is None {
                    &&& v.compliant
                    &&& v.source == AmlSource::ManualListOnly
                    &&& v.identifications@.len() == 0
                    &&& v.reason is None
                } else {
                    let ids = self.cache@[address].identifications@;
                    &&& self.has_fresh_answer(address, clock)
                    &&& v.compliant == (ids.len() == 0)
                    &&& v.source == AmlSource::Cache
                    &&& v.identifications@ == ids
                    &&& text_option(v.reason) == first_reason(ids)
                }
            },
            ScreeningStep::Ask { address: asked, url, api_key, checked_at } => {
                &&& !self.flags@.contains_key(address)
                &&& self.config.api_key is Some
                &&& !self.has_fresh_answer(address, clock)
                &&& asked@ == address
                &&& url@ == self.location(address)
                &&& api_key == self.config.api_key->0
                &&& checked_at == now
            },
        }
    }

    /// The first step of a screening, when the screener's clock shows `clock`
    /// and the wall clock `now`.
    pub fn begin_screening_at(&self, address: &str, clock: u128, now: Time) -> (r: Result<
        ScreeningStep,
        AmlError,
    >)
        requires
            self.wf(),
        ensures
            match r {
                Ok(step) => is_address(trimmed(address@)) && self.is_first_step(
                    step,
                    trimmed(address@),
                    clock,
                    now,
                ),
                Err(e) => e is InvalidAddress && !is_address(trimmed(address@)),
            },
    {
        let address = match normalize_address(address) {
            Ok(a) => a,
            Err(e) => {
                return Err(e);
            },
        };
        if let Some(flag) = self.flags.get(address.as_str()) {
            return Ok(
                ScreeningStep::Verdict(
                    AmlScreeningResult {
                        address,
                        compliant: false,
                        source: AmlSource::ManualFlag,
                        identifications: Vec::new(),
                        reason: Some(flag.reason.clone()),
                        checked_at: now,
                    },
                ),
            );
        }
        let api_key = match &self.config.api_key {
            Some(key) => key.clone(),
            None => {
                return Ok(
                    ScreeningStep::Verdict(
                        AmlScreeningResult {
                            address,
                            compliant: true,
                            source: AmlSource::ManualListOnly,
                            identifications: Vec::new(),
                            reason: None,
                            checked_at: now,
                        },
                    ),
                );
            },
        };
        if let Some(cached) = self.cache.get(address.as_str()) {
            let age: u128 = if clock >= cached.fetched_at { clock - cached.fetched_at } else { 0 };
            if age < self.config.cache_ttl {
                let identifications = cached.identifications.clone();
                assert(identifications@ =~= cached.identifications@);
                let reason = reason_of(&identifications);
                return Ok(
                    ScreeningStep::Verdict(
                        AmlScreeningResult {
                            address,
                            compliant: identifications.is_empty(),
                            source: AmlSource::Cache,
                            identifications,
                            reason,
                            checked_at: now,
                        },
                    ),
                );
            }
        }
        let mut url = strip_trailing(self.config.api_url.as_str(), '/');
        url.append("/");
        url.append(address.as_str());
        Ok(ScreeningStep::Ask { address, url, api_key, checked_at: now })
    }

    /// The first step of a screening.
    pub fn begin_screening(&self, address: &str) -> (r: Result<ScreeningStep, AmlError>)
        requires
            self.wf(),
        ensures
            match r {
                Ok(step) => is_address(trimmed(address@)) && exists|clock: u128, now: Time|
                    steady_clock_shows(self.origin, clock) && wall_clock_shows(now)
                        && #[trigger] self.is_first_step(step, trimmed(address@), clock, now),
                Err(e) => e is InvalidAddress && !is_address(trimmed(address@)),
            },
    {
        let clock = nanos_since(&self.origin);
        let now = utc_now();
        self.begin_screening_at(address, clock, now)
    }

    /// What the provider's answer does to the screener, and the verdict that it leads
    /// to.
    pub open spec fn concluded(
        &self,
        after: AmlScreener,
        address: Seq<char>,
        answer: Result<Vec<SanctionIdentification>, AmlError>,
        checked_at: Time,
        clock: u128,
        r: AmlScreeningResult,
    ) -> bool {
        &&& after.config == self.config
        &&& after.flags == self.flags
        &&& after.origin == self.origin
        &&& r.address@ == address
        &&& r.checked_at == checked_at
        &&& match answer {
            Ok(ids) => {
                &&& after.cache@.contains_key(address)
                &&& after.cache@ == self.cache@.insert(address, after.cache@[address])
                &&& after.cache@[address].identifications@ == ids@
                &&& after.cache@[address].fetched_at == clock
                &&& r.compliant == (ids.len() == 0)
                &&& r.source == AmlSource::Chainalysis
                &&& r.identifications@ == ids@
                &&& text_option(r.reason) == first_reason(ids@)
            },
            Err(e) => {
                &&& after.cache == self.cache
                &&& r.compliant == self.config.fail_open
                &&& r.source == AmlSource::ProviderUnavailable
                &&& r.identifications@.len() == 0
                &&& text_option(r.reason) == Some(e.message_spec())
            },
        }
    }

    /// The verdict that the provider's answer leads to, for a screening that began
    /// at `checked_at`, when the screener's clock shows `clock`. An answer is
    /// cached as of `clock`; a failure is not.
    pub fn finish_screening_at(
        &mut self,
        address: String,
        answer: Result<Vec<SanctionIdentification>, AmlError>,
        checked_at: Time,
        clock: u128,
    ) -> (r: AmlScreeningResult)
        requires
            old(self).wf(),
        ensures
            final(self).wf(),
            old(self).concluded(*final(self), address@, answer, checked_at, clock, r),
    {
        match answer {
            Ok(identifications) => {
                let ghost before = self.cache@;
                let kept = identifications.clone();
                assert(kept@ =~= identifications@);
                let _previous = self.cache.insert(
                    address.clone(),
                    CachedScreening { identifications: kept, fetched_at: clock },
                );
                assert(self.cache@ =~= before.insert(address@, self.cache@[address@]));
                let reason = reason_of(&identifications);
                AmlScreeningResult {
                    address,
                    compliant: identifications.is_empty(),
                    source: AmlSource::Chainalysis,
                    identifications,
                    reason,
                    checked_at,
                }
            },
            Err(e) => {
                AmlScreeningResult {
                    address,
                    compliant: self.config.fail_open,
                    source: AmlSource::ProviderUnavailable,
                    identifications: Vec::new(),
                    reason: Some(e.message()),
                    checked_at,
                }
            },
        }
    }

    /// The verdict that the provider's answer leads to, for a screening that began
    /// at `checked_at`.
    pub fn finish_screening(
        &mut self,
        address: String,
        answer: Result<Vec<SanctionIdentification>, AmlError>,
        checked_at: Time,
    ) -> (r: AmlScreeningResult)
        requires
            old(self).wf(),
        ensures
            final(self).wf(),
            exists|clock: u128|
                steady_clock_shows(old(self).origin, clock) && #[trigger] old(self).concluded(
                    *final(self),
                    address@,
                    answer,
                    checked_at,
                    clock,
                    r,
                ),
    {
        let clock = nanos_since(&self.origin);
        self.finish_screening_at(address, answer, checked_at, clock)
    }

    /// Flags an address at the time `now`.
    pub fn flag_at(&mut self, address: &str, reason: String, flagged_by: String, now: Time) -> (r: Result<
        AmlFlag,
        AmlError,
    >)
        requires
            old(self).wf(),
        ensures
            final(self).wf(),
            final(self).config == old(self).config,
            final(self).cache == old(self).cache,
            final(self).origin == old(self).origin,
            flagged(old(self).flags@, final(self).flags@, address@, reason, flagged_by, r),
            r is Err ==> final(self).flags == old(self).flags,
            r matches Ok(flag) ==> flag.flagged_at == now,
    {
        let address = match normalize_address(address) {
            Ok(a) => a,
            Err(e) => {
                return Err(e);
            },
        };
        let flag = AmlFlag { address: address.clone(), reason, flagged_by, flagged_at: now };
        let _previous = self.flags.insert(address, flag.clone());
        Ok(flag)
    }

    /// Flags an address.
    pub fn flag(&mut self, address: &str, reason: String, flagged_by: String) -> (r: Result<
        AmlFlag,
        AmlError,
    >)
        requires
            old(self).wf(),
        ensures
            final(self).wf(),
            final(self).config == old(self).config,
            final(self).cache == old(self).cache,
            final(self).origin == old(self).origin,
            flagged(old(self).flags@, final(self).flags@, address@, reason, flagged_by, r),
            r is Err ==> final(self).flags == old(self).flags,
            r matches Ok(flag) ==> wall_clock_shows(flag.flagged_at),
    {
        let now = utc_now();
        self.flag_at(address, reason, flagged_by, now)
    }

    /// Removes the flag of an address; whether there was one.
    pub fn unflag(&mut self, address: &str) -> (r: Result<bool, AmlError>)
        requires
            old(self).wf(),
        ensures
            final(self).wf(),
            final(self).config == old(self).config,
            final(self).cache == old(self).cache,
            final(self).origin == old(self).origin,
            unflagged(old(self).flags@, final(self).flags@, address@, r),
            r is Err ==> final(self).flags == old(self).flags,
    {
        let address = match normalize_address(address) {
            Ok(a) => a,
            Err(e) => {
                return Err(e);
            },
        };
        Ok(self.flags.remove(address.as_str()).is_some())
    }

    /// All flags, in the order in which addresses were first flagged.
    pub fn flags(&self) -> (r: Vec<AmlFlag>)
        requires
            self.wf(),
        ensures
            r@ == self.flags.values(),
    {
        let mut out: Vec<AmlFlag> = Vec::new();
        let mut i: usize = 0;
        let n = self.flags.len();
        while i < n
            invariant
                i <= n,
                self.wf(),
                n == self.flags.keys().len(),
                out@ == self.flags.values().take(i as int),
            decreases n - i,
        {
            out.push(self.flags.value_at(i).clone());
            i = i + 1;
            assert(out@ =~= self.flags.values().take(i as int));
        }
        assert(out@ =~= self.flags.values());
        out
    }
}

/// A flagged address is never compliant, whatever the provider or the cache
/// say, and the provider is not even asked.
pub proof fn flagged_addresses_are_not_compliant(
    screener: AmlScreener,
    step: ScreeningStep,
    address: Seq<char>,
    clock: u128,
    now: Time,
)
    requires
        screener.flags@.contains_key(address),
        screener.is_first_step(step, address, clock, now),
    ensures
        step is Verdict,
        !step->Verdict_0.compliant,
{
}

/// An answer that was cached is given again until it is too old: the address
/// gets the same verdict without asking.
pub proof fn fresh_answers_are_reused(
    screener: AmlScreener,
    step: ScreeningStep,
    address: Seq<char>,
    clock: u128,
    now: Time,
)
    requires
        !screener.flags@.contains_key(address),
        screener.config.api_key is Some,
        screener.has_fresh_answer(address, clock),
        screener.is_first_step(step, address, clock, now),
    ensures
        step is Verdict,
        step->Verdict_0.source == AmlSource::Cache,
        step->Verdict_0.compliant == (screener.cache@[address].identifications.len() == 0),
        step->Verdict_0.identifications@ == screener.cache@[address].identifications@,
{
}

/// Once an answer is too old, or there is none, the provider is asked.
pub proof fn stale_answers_are_asked_for_again(
    screener: AmlScreener,
    step: ScreeningStep,
    address: Seq<char>,
    clock: u128,
    now: Time,
)
    requires
        !screener.flags@.contains_key(address),
        screener.config.api_key is Some,
        !screener.has_fresh_answer(address, clock),
        screener.is_first_step(step, address, clock, now),
    ensures
        step is Ask,
{
}

/// An address is made of one to 128 letters and digits of ASCII.
pub proof fn addresses_are_letters_and_digits(s: Seq<char>)
    ensures
        is_address(s) <==> 1 <= s.len() <= 128 && forall|i: int|
            0 <= i < s.len() ==> {
                let c = (#[trigger] s[i]) as int;
                48 <= c <= 57 || 65 <= c <= 90 || 97 <= c <= 122
            },
{
}

/// Where neither a flag nor the cache decides, an address is compliant without asking
/// exactly where no provider is configured; otherwise the provider is asked about that
/// address, with the configured key.
pub proof fn unconfigured_providers_are_not_asked(
    screener: AmlScreener,
    step: ScreeningStep,
    address: Seq<char>,
    clock: u128,
    now: Time,
)
    requires
        screener.is_first_step(step, address, clock, now),
        !screener.flags@.contains_key(address),
    ensures
        screener.config.api_key is None ==> step is Verdict && step->Verdict_0.compliant
            && step->Verdict_0.source == AmlSource::ManualListOnly,
        step is Ask ==> step->address@ == address && screener.config.api_key == Some(step->api_key)
            && step->checked_at == now,
        step is Verdict ==> step->Verdict_0.address@ == address && step->Verdict_0.checked_at
            == now,
{
}

/// An answer is fresh until it is as old as the configured time, and no longer.
pub proof fn answers_age(screener: AmlScreener, address: Seq<char>, clock: u128)
    requires
        screener.cache@.contains_key(address),
        clock >= screener.cache@[address].fetched_at,
    ensures
        screener.has_fresh_answer(address, clock) <==> clock
            - screener.cache@[address].fetched_at < screener.config.cache_ttl,
{
}

/// The provider's answer decides: an address without identifications is compliant and one
/// with any is not. The answer is kept for that address alone and reused. Where the
/// provider failed, the configured policy decides, and nothing is kept.
pub proof fn the_answer_decides(
    before: AmlScreener,
    after: AmlScreener,
    address: Seq<char>,
    answer: Result<Vec<SanctionIdentification>, AmlError>,
    checked_at: Time,
    clock: u128,
    r: AmlScreeningResult,
    other: Seq<char>,
)
    requires
        before.concluded(after, address, answer, checked_at, clock, r),
        other != address,
    ensures
        answer matches Ok(ids) ==> {
            &&& r.compliant <==> ids.len() == 0
            &&& r.identifications@ == ids@
            &&& after.cache@[address].identifications@ == ids@
            &&& after.config.cache_ttl > 0 ==> after.has_fresh_answer(address, clock)
        },
        answer is Err ==> r.compliant == before.config.fail_open && after.cache == before.cache,
        r.address@ == address,
        r.checked_at == checked_at,
        after.flags == before.flags,
        after.config == before.config,
        after.cache@.contains_key(other) == before.cache@.contains_key(other),
        before.cache@.contains_key(other) ==> after.cache@[other] == before.cache@[other],
{
}

/// Answers stay valid for an hour unless the setting is a number of seconds, and screening
/// fails closed unless it is set to fail open.
pub proof fn screening_is_strict_by_default(setting: Option<Seq<char>>)
    ensures
        setting is None ==> ttl_of(setting) == 3_600_000_000_000 && !fails_open(setting),
        setting matches Some(text) ==> match parse_unsigned(text, u64::MAX as nat) {
            Some(secs) => ttl_of(setting) == secs * 1_000_000_000,
            None => ttl_of(setting) == 3_600_000_000_000,
        },
        fails_open(setting) ==> setting is Some && (setting->0 == "1"@ || setting->0.len() == 4),
        fails_open(Some("true"@)) && fails_open(Some("1"@)),
{
    reveal_strlit("true");
    if fails_open(setting) && setting->0 != "1"@ {
        let lower = setting->0.map_values(|c: char| crate::text::ascii_lower(c));
        assert(lower.len() == setting->0.len());
        assert("true"@.map_values(|c: char| crate::text::ascii_lower(c)).len() == 4);
    }
}

/// The reason for sanctions is the name of the first identification, and its category where
/// it has no name; without identifications there is none.
pub proof fn reasons_come_from_the_first_identification(ids: Seq<SanctionIdentification>)
    ensures
        ids.len() == 0 ==> first_reason(ids) is None,
        ids.len() > 0 && ids[0].name is Some ==> first_reason(ids) == Some(ids[0].name->0@),
        ids.len() > 0 && ids[0].name is None && ids[0].category is Some ==> first_reason(ids)
            == Some(ids[0].category->0@),
{
}

/// The provider is asked about an address below the configured location, with one slash
/// between them.
pub proof fn addresses_are_asked_below_the_location(
    screener: AmlScreener,
    base: Seq<char>,
    address: Seq<char>,
)
    requires
        base.len() > 0,
        base.last() != '/',
        screener.config.api_url@ == base || screener.config.api_url@ == base + seq!['/'],
    ensures
        screener.location(address) == base + seq!['/'] + address,
{
    reveal_strlit("/");
    assert("/"@ =~= seq!['/']);
    assert((base + seq!['/']).drop_last() =~= base);
    assert(without_trailing(base, '/') == base);
    assert(without_trailing(base + seq!['/'], '/') == without_trailing(base, '/')) by {
        assert((base + seq!['/']).last() == '/');
    }
}

/// An address that was flagged is on the list with its reason until the flag is removed, and
/// off it after that. Other addresses are not affected, and what is no address is refused.
pub proof fn flags_last_until_they_are_removed(
    before: Map<Seq<char>, AmlFlag>,
    middle: Map<Seq<char>, AmlFlag>,
    after: Map<Seq<char>, AmlFlag>,
    address: Seq<char>,
    reason: String,
    flagged_by: String,
    r: Result<AmlFlag, AmlError>,
    s: Result<bool, AmlError>,
    other: Seq<char>,
)
    requires
        flagged(before, middle, address, reason, flagged_by, r),
        unflagged(middle, after, address, s),
        other != trimmed(address),
    ensures
        r is Ok <==> is_address(trimmed(address)),
        r is Ok ==> middle.contains_key(trimmed(address)) && middle[trimmed(address)].reason
            == reason && s == Ok::<bool, AmlError>(true) && !after.contains_key(trimmed(address)),
        r is Err ==> middle == before && s is Err && after == before,
        after.contains_key(other) == before.contains_key(other),
        before.contains_key(other) ==> after[other] == before[other] && middle[other]
            == before[other],
{
}

/// A screening clears an address only where it came to a verdict and that is compliant: a
/// screening that failed clears nothing.
pub proof fn failed_screenings_clear_nothing(screening: Result<AmlScreeningResult, AmlError>)
    ensures
        screening is Err ==> !clears(screening),
        screening matches Ok(verdict) ==> clears(screening) == verdict.compliant,
{
}

} // verus!
