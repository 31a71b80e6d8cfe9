//! Fraud scores of transactions.
//!
//! A transaction gives signals: a large or very large amount, an unknown
//! merchant, a night-time hour, a location of high risk. The score adds up the
//! weights of the signals; a transaction whose score exceeds the threshold
//! counts as fraud.

use vstd::prelude::*;

use crate::measure::Measure;
use crate::text::same;

verus! {

/// A score from 0 for legitimate to 1 for fraudulent. It is a number of single
/// precision.
pub type FraudScore = Measure;

/// The bits of 0.25, the score of an untrained model.
pub const UNTRAINED_SCORE: u64 = 0x3FD0_0000_0000_0000;

/// The bits of 0.5, the threshold at first.
pub const DEFAULT_THRESHOLD: u64 = 0x3FE0_0000_0000_0000;

/// The bits of 1.
pub const HIGHEST: u64 = 0x3FF0_0000_0000_0000;

/// The bits of 10000, beyond which an amount is large.
pub const LARGE_AMOUNT: u64 = 0x40C3_8800_0000_0000;

/// The bits of 50000, beyond which an amount is very large.
pub const VERY_LARGE_AMOUNT: u64 = 0x40E8_6A00_0000_0000;

/// The scores by signals, as bits. Each is the sum of the weights, in single
/// precision and in this order: 0.25 for a large amount, 0.2 more for a very
/// large one, 0.15 for an unknown merchant, 0.1 for the night, 0.2 for a
/// location of high risk. The place of a score is 8 for a large amount or 16
/// for a very large one, 4 more for an unknown merchant, 2 for the night, 1
/// for a location of high risk.
pub const SCORES: [u64; 24] = [
    0x0000_0000_0000_0000,
    0x3FC9_9999_A000_0000,
    0x3FB9_9999_A000_0000,
    0x3FD3_3333_4000_0000,
    0x3FC3_3333_4000_0000,
    0x3FD6_6666_8000_0000,
    0x3FD0_0000_0000_0000,
    0x3FDC_CCCC_C000_0000,
    0x3FD0_0000_0000_0000,
    0x3FDC_CCCC_C000_0000,
    0x3FD6_6666_6000_0000,
    0x3FE1_9999_A000_0000,
    0x3FD9_9999_A000_0000,
    0x3FE3_3333_4000_0000,
    0x3FE0_0000_0000_0000,
    0x3FE6_6666_6000_0000,
    0x3FDC_CCCC_C000_0000,
    0x3FE4_CCCC_C000_0000,
    0x3FE1_9999_A000_0000,
    0x3FE8_0000_0000_0000,
    0x3FE3_3333_4000_0000,
    0x3FE9_9999_A000_0000,
    0x3FE6_6666_8000_0000,
    0x3FEC_CCCC_E000_0000,
];

/// A transaction to be scored.
#[derive(Debug)]
pub struct Transaction {
    pub id: String,
    pub amount: Measure,
    pub merchant_id: String,
    pub user_id: String,
    /// Seconds since the Unix epoch.
    pub timestamp: i64,
    pub location: String,
}

/// The hour of the day of a timestamp; before the epoch it counts backwards.
pub open spec fn hour_of(timestamp: int) -> int {
    if timestamp >= 0 {
        timestamp / 3600 % 24
    } else {
        -((-timestamp) / 3600 % 24)
    }
}

/// What speaks for fraud in a transaction.
#[derive(Debug, Clone, Copy, PartialEq, Eq, Structural)]
pub struct Signals {
    pub large: bool,
    pub very_large: bool,
    pub unknown_merchant: bool,
    pub night: bool,
    pub high_risk_location: bool,
}

/// What speaks for fraud in a transaction.
pub open spec fn signals_of(tx: Transaction) -> Signals {
    Signals {
        large: tx.amount.gt_spec(Measure { bits: LARGE_AMOUNT }),
        very_large: tx.amount.gt_spec(Measure { bits: VERY_LARGE_AMOUNT }),
        unknown_merchant: tx.merchant_id@ == "unknown"@,
        night: hour_of(tx.timestamp as int) > 22 || hour_of(tx.timestamp as int) < 6,
        high_risk_location: tx.location@ == "high_risk"@,
    }
}

impl Signals {
    /// The place of the score in the table.
    pub open spec fn place(self) -> int {
        (if self.very_large {
            16int
        } else if self.large {
            8
        } else {
            0
        }) + (if self.unknown_merchant {
            4int
        } else {
            0
        }) + (if self.night {
            2int
        } else {
            0
        }) + (if self.high_risk_location {
            1int
        } else {
            0
        })
    }

    /// The score.
    pub open spec fn score(self) -> FraudScore {
        Measure { bits: SCORES[self.place()] }
    }

    /// All signals of the other are among these.
    pub open spec fn at_least(self, other: Signals) -> bool {
        &&& other.large ==> self.large
        &&& other.very_large ==> self.very_large
        &&& other.unknown_merchant ==> self.unknown_merchant
        &&& other.night ==> self.night
        &&& other.high_risk_location ==> self.high_risk_location
    }
}

/// What speaks for fraud in a transaction.
pub fn find_signals(tx: &Transaction) -> (r: Signals)
    ensures
        r == signals_of(*tx),
{
    let night = if tx.timestamp < 0 {
        true
    } else {
        let hour: u64 = tx.timestamp as u64 / 3600 % 24;
        hour > 22 || hour < 6
    };
    Signals {
        large: tx.amount.gt(&Measure { bits: LARGE_AMOUNT }),
        very_large: tx.amount.gt(&Measure { bits: VERY_LARGE_AMOUNT }),
        unknown_merchant: same(tx.merchant_id.as_str(), "unknown"),
        night,
        high_risk_location: same(tx.location.as_str(), "high_risk"),
    }
}

/// The score of a transaction.
#[derive(Debug)]
pub struct FraudScoreResult {
    pub transaction_id: String,
    pub score: FraudScore,
    pub is_fraud: bool,
    /// Twice the distance of the score from one half, in single precision.
    pub confidence: Measure,
}

/// A request to score a transaction.
#[derive(Debug)]
pub struct ScoringRequest {
    pub transaction: Transaction,
}

/// The threshold within the range of scores.
pub open spec fn clamped(threshold: FraudScore) -> FraudScore {
    if !threshold.gt_spec(Measure { bits: 0 }) {
        Measure { bits: 0 }
    } else if threshold.gt_spec(Measure { bits: HIGHEST }) {
        Measure { bits: HIGHEST }
    } else {
        threshold
    }
}

/// The score of a transaction for a model that has seen so many samples.
pub open spec fn score_of(training_samples: u64, tx: Transaction) -> FraudScore {
    if training_samples == 0 {
        Measure { bits: UNTRAINED_SCORE }
    } else {
        signals_of(tx).score()
    }
}

/// The model.
#[derive(Debug, Clone, Copy, PartialEq, Eq, Structural)]
pub struct FraudDetector {
    pub threshold: FraudScore,
    pub training_samples: u64,
}

impl Default for FraudDetector {
    fn default() -> (r: Self)
        ensures
            r.threshold.bits == DEFAULT_THRESHOLD,
            r.training_samples == 0,
    {
        FraudDetector { threshold: Measure { bits: DEFAULT_THRESHOLD }, training_samples: 0 }
    }
}

impl FraudDetector {
    /// The score of the transaction exceeds the threshold.
    pub open spec fn suspects(self, tx: Transaction) -> bool {
        score_of(self.training_samples, tx).gt_spec(self.threshold)
    }

    /// An untrained model.
    pub fn new() -> (r: Self)
        ensures
            r.threshold.bits == DEFAULT_THRESHOLD,
            r.training_samples == 0,
    {
        Self::default()
    }

    /// The score of a transaction.
    pub fn get_fraud_score(&self, transaction: &Transaction) -> (r: FraudScore)
        ensures
            r == score_of(self.training_samples, *transaction),
    {
        if self.training_samples == 0 {
            return Measure { bits: UNTRAINED_SCORE };
        }
        let signals = find_signals(transaction);
        let mut place: usize = 0;
        if signals.very_large {
            place = place + 16;
        } else if signals.large {
            place = place + 8;
        }
        if signals.unknown_merchant {
            place = place + 4;
        }
        if signals.night {
            place = place + 2;
        }
        if signals.high_risk_location {
            place = place + 1;
        }
        Measure { bits: SCORES[place] }
    }

    /// Whether the score of a transaction exceeds the threshold.
    pub fn is_fraud(&self, transaction: &Transaction) -> (r: bool)
        ensures
            r == self.suspects(*transaction),
    {
        self.get_fraud_score(transaction).gt(&self.threshold)
    }

    /// Trains the model on so many samples.
    pub fn train_on_history(&mut self, sample_count: u64)
        ensures
            final(self).training_samples == sample_count,
            final(self).threshold == old(self).threshold,
    {
        self.training_samples = sample_count;
    }

    /// Sets the threshold, within the range of scores.
    pub fn set_threshold(&mut self, threshold: FraudScore)
        ensures
            final(self).threshold == clamped(threshold),
            final(self).training_samples == old(self).training_samples,
    {
        self.threshold = if !threshold.gt(&Measure { bits: 0 }) {
            Measure { bits: 0 }
        } else if threshold.gt(&Measure { bits: HIGHEST }) {
            Measure { bits: HIGHEST }
        } else {
            threshold
        };
    }

    /// The threshold.
    pub fn get_threshold(&self) -> (r: FraudScore)
        ensures
            r == self.threshold,
    {
        self.threshold
    }

    /// The number of samples that the model has seen.
    pub fn training_samples(&self) -> (r: u64)
        ensures
            r == self.training_samples,
    {
        self.training_samples
    }
}

/// Scores a transaction. The confidence is worked out from the score by the
/// caller.
pub fn score_transaction(
    detector: &FraudDetector,
    request: ScoringRequest,
    confidence: Measure,
) -> (r: FraudScoreResult)
    ensures
        r.transaction_id@ == request.transaction.id@,
        r.score == score_of(detector.training_samples, request.transaction),
        r.is_fraud == detector.suspects(request.transaction),
        r.confidence == confidence,
{
    let score = detector.get_fraud_score(&request.transaction);
    let is_fraud = detector.is_fraud(&request.transaction);
    FraudScoreResult { transaction_id: request.transaction.id, score, is_fraud, confidence }
}

/// Every score lies between 0 and 1.
pub proof fn scores_are_within_range(training_samples: u64, tx: Transaction)
    ensures
        score_of(training_samples, tx).ge_spec(Measure { bits: 0 }),
        (Measure { bits: HIGHEST }).ge_spec(score_of(training_samples, tx)),
{
}

/// More signals never lower the score.
pub proof fn more_signals_score_higher(more: Signals, fewer: Signals)
    requires
        more.at_least(fewer),
        more.very_large ==> more.large,
        fewer.very_large ==> fewer.large,
    ensures
        more.score().ge_spec(fewer.score()),
{
}

/// The threshold lies between 0 and 1, whatever was asked for.
pub proof fn thresholds_are_within_range(threshold: FraudScore)
    ensures
        clamped(threshold).ge_spec(Measure { bits: 0 }),
        (Measure { bits: HIGHEST }).ge_spec(clamped(threshold)),
{
}

/// A higher threshold finds no more fraud.
pub proof fn higher_thresholds_find_less(score: FraudScore, low: FraudScore, high: FraudScore)
    requires
        high.ge_spec(low),
        score.gt_spec(high),
    ensures
        score.gt_spec(low),
{
}

/// The signals are what the transaction shows: an amount above 10000 or above 50000, a
/// merchant who is not known, an hour from 23 to 6, and a location of high risk.
pub proof fn signals_are_what_the_transaction_shows(tx: Transaction)
    ensures
        signals_of(tx).large <==> tx.amount.gt_spec(Measure { bits: 0x40C3_8800_0000_0000 }),
        signals_of(tx).very_large <==> tx.amount.gt_spec(Measure { bits: 0x40E8_6A00_0000_0000 }),
        signals_of(tx).very_large ==> signals_of(tx).large,
        signals_of(tx).unknown_merchant <==> tx.merchant_id@ == "unknown"@,
        signals_of(tx).high_risk_location <==> tx.location@ == "high_risk"@,
        tx.timestamp >= 0 ==> (signals_of(tx).night <==> tx.timestamp as int % 86_400 < 21_600
            || tx.timestamp as int % 86_400 >= 82_800),
{
    let t = tx.timestamp as int;
    if t >= 0 {
        assert(t / 3600 % 24 == (t % 86_400) / 3600);
    }
}

/// Each signal raises the score: by a quarter for a large amount, by more for a very
/// large one, and less for the others. Without any the score is zero.
pub proof fn each_signal_raises_the_score(s: Signals)
    requires
        s.very_large ==> s.large,
    ensures
        !s.large ==> (Signals { large: true, ..s }).score().gt_spec(s.score()),
        !s.very_large ==> (Signals { large: true, very_large: true, ..s }).score().gt_spec(s.score()),
        s.large && !s.very_large ==> (Signals { very_large: true, ..s }).score().gt_spec(s.score()),
        !s.unknown_merchant ==> (Signals { unknown_merchant: true, ..s }).score().gt_spec(s.score()),
        !s.night ==> (Signals { night: true, ..s }).score().gt_spec(s.score()),
        !s.high_risk_location ==> (Signals { high_risk_location: true, ..s }).score().gt_spec(
            s.score(),
        ),
        !s.large && !s.unknown_merchant && !s.night && !s.high_risk_location ==> s.score().bits
            == 0,
        s.large && !s.very_large && !s.unknown_merchant && !s.night && !s.high_risk_location
            ==> s.score().bits == 0x3FD0_0000_0000_0000,
        !s.large && s.unknown_merchant && !s.night && !s.high_risk_location ==> s.score().bits
            == 0x3FC3_3333_4000_0000,
        !s.large && !s.unknown_merchant && s.night && !s.high_risk_location ==> s.score().bits
            == 0x3FB9_9999_A000_0000,
        !s.large && !s.unknown_merchant && !s.night && s.high_risk_location ==> s.score().bits
            == 0x3FC9_9999_A000_0000,
{
}

/// Fraud is what scores above the threshold. A model that has not been trained scores
/// every transaction one quarter, and one that has by the signals alone.
pub proof fn fraud_exceeds_the_threshold(detector: FraudDetector, tx: Transaction)
    ensures
        detector.training_samples == 0 ==> (detector.suspects(tx) <==> (Measure {
            bits: 0x3FD0_0000_0000_0000,
        }).gt_spec(detector.threshold)),
        detector.training_samples > 0 ==> (detector.suspects(tx) <==> signals_of(
            tx,
        ).score().gt_spec(detector.threshold)),
        detector.threshold.bits == 0x3FF0_0000_0000_0000 ==> !detector.suspects(tx),
{
    scores_are_within_range(detector.training_samples, tx);
}

/// A threshold between 0 and 1 is taken as it is; a lower one becomes 0 and a higher
/// one 1.
pub proof fn fitting_thresholds_are_taken(threshold: FraudScore)
    ensures
        threshold.gt_spec(Measure { bits: 0 }) && (Measure {
            bits: 0x3FF0_0000_0000_0000,
        }).ge_spec(threshold) ==> clamped(threshold) == threshold,
        threshold.gt_spec(Measure { bits: 0x3FF0_0000_0000_0000 }) ==> clamped(threshold).bits
            == 0x3FF0_0000_0000_0000,
        (Measure { bits: 0 }).ge_spec(threshold) ==> clamped(threshold).bits == 0,
{
}

} // verus!
