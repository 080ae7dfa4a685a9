//! Parameter validation against device-tree metadata, and the bookkeeping
//! of applying a configuration parameter by parameter.
//!
//! Numeric parameters are snapped to their step and clamped to their range
//! where the configuration is applied; enumerated parameters are checked
//! against their allowed values here, and passed through either way (the
//! hardware decides).

use vstd::prelude::*;

use super::handle::ParamInfo;
use crate::text::{concat_str, contains_seq, str_contains, str_eq};

verus! {

/// Result of validating one parameter value.
#[derive(Debug, Clone)]
pub struct ValidateResult {
    /// The value to send (possibly adjusted).
    pub value: String,
    /// Whether the value differs from the one given.
    pub adjusted: bool,
    /// What was adjusted or is suspicious, if anything.
    pub message: Option<String>,
}

/// Status of applying one parameter.
#[derive(Debug, Clone, Copy, PartialEq, Eq, Structural)]
pub enum ParamApplyStatus {
    /// Accepted as given after validation.
    Accepted,
    /// Snapped to a valid step or range before sending.
    Adjusted,
    /// The hardware refused the value.
    Failed,
    /// Not in the device tree, and the hardware refused it.
    Skipped,
    /// Not in the device tree, and the hardware accepted it unvalidated.
    NoCache,
}

/// Result of applying one parameter.
#[derive(Debug, Clone)]
pub struct ParamApplyResult {
    /// Device-tree path (e.g. "/ch/0/par/ch_gate").
    pub path: String,
    pub original_value: String,
    /// Value sent to the hardware.
    pub applied_value: String,
    pub status: ParamApplyStatus,
    pub message: Option<String>,
}

/// Aggregate result of applying a configuration.
#[derive(Debug, Clone)]
pub struct ApplyConfigResult {
    /// Parameters to process.
    pub total: usize,
    pub ok: usize,
    pub adjusted: usize,
    pub failed: usize,
    pub skipped: usize,
    /// Applied without device-tree validation.
    pub no_cache: usize,
    /// Per-parameter results, in the order applied.
    pub details: Vec<ParamApplyResult>,
}

/// Message of a value outside an enumeration: the value quoted and the
/// allowed values in `Vec` debug notation.
pub uninterp spec fn not_allowed_message(value: Seq<char>, allowed: Seq<Seq<char>>) -> Seq<char>;

/// Views of the strings of `v`.
pub open spec fn string_views(v: Seq<String>) -> Seq<Seq<char>> {
    v.map_values(|s: String| s@)
}

/// `format!("'{}' not in allowed values: {:?}", value, allowed)`: std
/// formatting of the value and of the list (each string quoted and
/// escaped). The text is named, not spelled out.
#[verifier::external_body]
fn format_not_allowed(value: &str, allowed: &Vec<String>) -> (r: String)
    ensures
        r@ == not_allowed_message(value@, string_views(allowed@)),
{
    format!("'{}' not in allowed values: {:?}", value, allowed)
}

/// Whether `value` is one of `allowed`.
fn is_allowed(value: &str, allowed: &Vec<String>) -> (r: bool)
    ensures
        r == string_views(allowed@).contains(value@),
{
    let mut i: usize = 0;
    while i < allowed.len()
        invariant
            i <= allowed@.len(),
            forall|k: int| 0 <= k < i ==> allowed@[k]@ != value@,
        decreases allowed@.len() - i,
    {
        if str_eq(allowed[i].as_str(), value) {
            proof {
                assert(string_views(allowed@)[i as int] == value@);
            }
            return true;
        }
        i = i + 1;
    }
    proof {
        if string_views(allowed@).contains(value@) {
            let k = choose|k: int| 0 <= k < allowed@.len() && string_views(allowed@)[k] == value@;
            assert(allowed@[k]@ == value@);
        }
    }
    false
}

/// How a parameter's value is checked, by the device-tree data type.
#[derive(Debug, Clone, Copy, PartialEq, Eq, Structural)]
pub enum ValidationKind {
    /// "NUMBER": snapped to the step and range.
    Numeric,
    /// "STRING": checked against the allowed values.
    Enumerated,
    /// Any other type: passed through unchanged.
    PassThrough,
}

/// The check for a parameter of device-tree data type `datatype`.
pub fn validation_kind(datatype: &str) -> (k: ValidationKind)
    ensures
        k == if datatype@ == "NUMBER"@ {
            ValidationKind::Numeric
        } else if datatype@ == "STRING"@ {
            ValidationKind::Enumerated
        } else {
            ValidationKind::PassThrough
        },
{
    if str_eq(datatype, "NUMBER") {
        ValidationKind::Numeric
    } else if str_eq(datatype, "STRING") {
        ValidationKind::Enumerated
    } else {
        ValidationKind::PassThrough
    }
}

/// The result of a value passed through unchanged.
pub fn pass_through(value: &str) -> (r: ValidateResult)
    ensures
        r.value@ == value@,
        !r.adjusted,
        r.message is None,
{
    ValidateResult { value: value.to_owned(), adjusted: false, message: None }
}

/// The value sent to the digitizer: the validated value when the
/// parameter was validated (it has device-tree metadata), else the value
/// as configured.
pub fn value_to_send(validated: &Option<ValidateResult>, configured: &str) -> (r: String)
    ensures
        r@ == match validated {
            Some(v) => v.value@,
            None => configured@,
        },
{
    match validated {
        Some(v) => v.value.clone(),
        None => configured.to_owned(),
    }
}

/// Check an enumerated value against the allowed values: it is passed
/// through unchanged, with a message when a non-empty list of allowed
/// values does not hold it.
pub fn validate_enum(value: &str, info: &ParamInfo) -> (r: ValidateResult)
    ensures
        r.value@ == value@,
        !r.adjusted,
        (info.allowed_values@.len() > 0 && !string_views(info.allowed_values@).contains(value@))
            ==> (r.message matches Some(m) && m@ == not_allowed_message(
            value@,
            string_views(info.allowed_values@),
        )),
        (info.allowed_values@.len() == 0 || string_views(info.allowed_values@).contains(value@))
            ==> r.message is None,
{
    let v = value.to_owned();
    if info.allowed_values.len() > 0 && !is_allowed(value, &info.allowed_values) {
        ValidateResult {
            value: v,
            adjusted: false,
            message: Some(format_not_allowed(value, &info.allowed_values)),
        }
    } else {
        ValidateResult { value: v, adjusted: false, message: None }
    }
}

/// Message of a parameter missing from the device tree that the hardware
/// refused.
pub open spec fn skipped_message(err: Seq<char>) -> Seq<char> {
    "Not in DevTree, set_value failed: "@ + err
}

/// The per-parameter result of applying `path`: `validated` is its
/// device-tree validation (none when the tree lacks it), `outcome` what
/// setting the value returned (the error text on failure).
pub open spec fn apply_result(
    path: String,
    original_value: String,
    validated: Option<ValidateResult>,
    outcome: Result<(), String>,
) -> (ParamApplyStatus, Seq<char>, Option<Seq<char>>) {
    match validated {
        Some(v) => match outcome {
            Ok(_) => (
                if v.adjusted {
                    ParamApplyStatus::Adjusted
                } else {
                    ParamApplyStatus::Accepted
                },
                v.value@,
                match v.message {
                    Some(m) => Some(m@),
                    None => None,
                },
            ),
            Err(e) => (ParamApplyStatus::Failed, v.value@, Some(e@)),
        },
        None => match outcome {
            Ok(_) => (ParamApplyStatus::NoCache, original_value@, None),
            Err(e) => (ParamApplyStatus::Skipped, original_value@, Some(skipped_message(e@))),
        },
    }
}

/// Whether `path` names a channel parameter.
pub open spec fn is_channel_path(path: Seq<char>) -> bool {
    contains_seq(path, "/ch/"@)
}

/// Channel parameters among `d`.
pub open spec fn channel_count(d: Seq<ParamApplyResult>) -> int
    decreases d.len(),
{
    if d.len() == 0 {
        0
    } else {
        channel_count(d.drop_last()) + if is_channel_path(d.last().path@) {
            1int
        } else {
            0
        }
    }
}

/// Channel parameters among `d` that failed or were skipped.
pub open spec fn channel_failed_count(d: Seq<ParamApplyResult>) -> int
    decreases d.len(),
{
    if d.len() == 0 {
        0
    } else {
        channel_failed_count(d.drop_last()) + if is_channel_path(d.last().path@) && (
        d.last().status == ParamApplyStatus::Failed || d.last().status
            == ParamApplyStatus::Skipped) {
            1int
        } else {
            0
        }
    }
}

/// How a parameter's outcome is recorded: a refused set is Failed (with
/// device-tree metadata) or Skipped (without), carrying the refusal's text
/// at the end of its message; an accepted set is Adjusted or Accepted as
/// validation changed the value or not, or NoCache without metadata; the
/// value recorded is the one sent: the validated value, else the value as
/// configured.
pub proof fn law_apply_result_status(
    path: String,
    original_value: String,
    validated: Option<ValidateResult>,
    outcome: Result<(), String>,
)
    ensures
        ({
            let (status, applied, message) = apply_result(path, original_value, validated, outcome);
            &&& (status == ParamApplyStatus::Failed || status == ParamApplyStatus::Skipped)
                <==> outcome is Err
            &&& (status == ParamApplyStatus::NoCache || status == ParamApplyStatus::Skipped)
                <==> validated is None
            &&& status == ParamApplyStatus::Adjusted <==> (outcome is Ok && validated is Some
                && validated->0.adjusted)
            &&& applied == match validated {
                Some(v) => v.value@,
                None => original_value@,
            }
            &&& outcome matches Err(e) ==> (message matches Some(m) && m.len() >= e@.len()
                && m.subrange(m.len() - e@.len(), m.len() as int) == e@)
        }),
{
    if let Err(e) = outcome {
        if validated is None {
            let m = skipped_message(e@);
            assert(m.subrange(m.len() - e@.len(), m.len() as int) =~= e@);
        } else {
            assert(e@.subrange(0, e@.len() as int) =~= e@);
        }
    }
}

/// A detail names a channel parameter that failed or was skipped.
pub open spec fn failed_channel(r: ParamApplyResult) -> bool {
    r.status == ParamApplyStatus::Failed || r.status == ParamApplyStatus::Skipped
}

/// All channel parameters failed exactly when there was one and every
/// detail whose path names a channel parameter is Failed or Skipped.
pub proof fn law_all_channel_params_failed(d: Seq<ParamApplyResult>)
    ensures
        0 <= channel_failed_count(d) <= channel_count(d),
        channel_count(d) > 0 <==> exists|i: int|
            0 <= i < d.len() && is_channel_path(#[trigger] d[i].path@),
        channel_failed_count(d) == channel_count(d) <==> forall|i: int|
            0 <= i < d.len() && is_channel_path(#[trigger] d[i].path@) ==> failed_channel(d[i]),
    decreases d.len(),
{
    if d.len() > 0 {
        let p = d.drop_last();
        law_all_channel_params_failed(p);
        let k = d.len() - 1;
        assert(d.last() == d[k]);
        if is_channel_path(d[k].path@) {
            assert(0 <= k < d.len() && is_channel_path(d[k].path@));
        }
        assert forall|i: int| 0 <= i < p.len() implies #[trigger] d[i] == p[i] by {}
        if exists|i: int| 0 <= i < p.len() && is_channel_path(#[trigger] p[i].path@) {
            let i = choose|i: int| 0 <= i < p.len() && is_channel_path(#[trigger] p[i].path@);
            assert(d[i] == p[i]);
        }
        if exists|i: int| 0 <= i < d.len() && is_channel_path(#[trigger] d[i].path@) {
            let i = choose|i: int| 0 <= i < d.len() && is_channel_path(#[trigger] d[i].path@);
            if i < k {
                assert(d[i] == p[i]);
                assert(is_channel_path(p[i].path@));
                assert(channel_count(p) > 0);
            } else {
                assert(is_channel_path(d.last().path@));
            }
            assert(channel_count(d) > 0);
        }
        if channel_count(d) > 0 {
            if is_channel_path(d.last().path@) {
                assert(is_channel_path(d[k].path@));
            } else {
                assert(channel_count(p) > 0);
                let i = choose|i: int| 0 <= i < p.len() && is_channel_path(#[trigger] p[i].path@);
                assert(d[i] == p[i]);
                assert(is_channel_path(d[i].path@));
            }
        }
        if channel_failed_count(d) == channel_count(d) {
            assert forall|i: int| 0 <= i < d.len() && is_channel_path(#[trigger] d[i].path@)
                implies failed_channel(d[i]) by {
                if i < k {
                    assert(d[i] == p[i]);
                }
            }
        }
        if forall|i: int| 0 <= i < d.len() && is_channel_path(#[trigger] d[i].path@) ==> failed_channel(
            d[i],
        ) {
            assert forall|i: int| 0 <= i < p.len() && is_channel_path(#[trigger] p[i].path@)
                implies failed_channel(p[i]) by {
                assert(d[i] == p[i]);
            }
            assert(is_channel_path(d[k].path@) ==> failed_channel(d[k]));
        }
    }
}

impl ApplyConfigResult {
    /// Counters agree with the details: each detail counted once, under
    /// its status.
    pub open spec fn counts_match(&self) -> bool {
        self.ok + self.adjusted + self.failed + self.skipped + self.no_cache == self.details@.len()
    }

    /// Nothing applied yet, out of `total` parameters.
    pub fn new(total: usize) -> (r: Self)
        ensures
            r.total == total,
            r.ok == 0 && r.adjusted == 0 && r.failed == 0 && r.skipped == 0 && r.no_cache == 0,
            r.details@.len() == 0,
            r.counts_match(),
    {
        ApplyConfigResult {
            total,
            ok: 0,
            adjusted: 0,
            failed: 0,
            skipped: 0,
            no_cache: 0,
            details: Vec::new(),
        }
    }

    /// Record the outcome of applying one parameter: one detail appended
    /// and the counter of its status incremented.
    pub fn record(
        &mut self,
        path: String,
        original_value: String,
        validated: Option<ValidateResult>,
        outcome: Result<(), String>,
    )
        requires
            old(self).details@.len() < usize::MAX,
            old(self).counts_match(),
        ensures
            ({
                let (status, applied, message) = apply_result(
                    path,
                    original_value,
                    validated,
                    outcome,
                );
                &&& final(self).details@.len() == old(self).details@.len() + 1
                &&& final(self).details@.drop_last() == old(self).details@
                &&& final(self).details@.last().path == path
                &&& final(self).details@.last().original_value == original_value
                &&& final(self).details@.last().applied_value@ == applied
                &&& final(self).details@.last().status == status
                &&& match final(self).details@.last().message {
                    Some(m) => message == Some(m@),
                    None => message is None,
                }
                &&& final(self).total == old(self).total
                &&& final(self).ok == old(self).ok + if status == ParamApplyStatus::Accepted {
                    1int
                } else {
                    0
                }
                &&& final(self).adjusted == old(self).adjusted + if status
                    == ParamApplyStatus::Adjusted {
                    1int
                } else {
                    0
                }
                &&& final(self).failed == old(self).failed + if status == ParamApplyStatus::Failed {
                    1int
                } else {
                    0
                }
                &&& final(self).skipped == old(self).skipped + if status
                    == ParamApplyStatus::Skipped {
                    1int
                } else {
                    0
                }
                &&& final(self).no_cache == old(self).no_cache + if status
                    == ParamApplyStatus::NoCache {
                    1int
                } else {
                    0
                }
                &&& final(self).counts_match()
            }),
    {
        let (status, applied_value, message) = match validated {
            Some(v) => match outcome {
                Ok(_) => {
                    if v.adjusted {
                        self.adjusted = self.adjusted + 1;
                        (ParamApplyStatus::Adjusted, v.value, v.message)
                    } else {
                        self.ok = self.ok + 1;
                        (ParamApplyStatus::Accepted, v.value, v.message)
                    }
                },
                Err(e) => {
                    self.failed = self.failed + 1;
                    (ParamApplyStatus::Failed, v.value, Some(e))
                },
            },
            None => match outcome {
                Ok(_) => {
                    self.no_cache = self.no_cache + 1;
                    let applied = original_value.clone();
                    (ParamApplyStatus::NoCache, applied, None)
                },
                Err(e) => {
                    self.skipped = self.skipped + 1;
                    let applied = original_value.clone();
                    let m = concat_str("Not in DevTree, set_value failed: ", e.as_str());
                    (ParamApplyStatus::Skipped, applied, Some(m))
                },
            },
        };
        self.details.push(
            ParamApplyResult { path, original_value, applied_value, status, message },
        );
    }

    /// Whether every channel parameter failed or was skipped (and there
    /// was one): typically a channel-count mismatch with the hardware.
    pub fn all_channel_params_failed(&self) -> (r: bool)
        ensures
            r == (channel_count(self.details@) > 0 && channel_failed_count(self.details@)
                == channel_count(self.details@)),
    {
        let mut ch_total: usize = 0;
        let mut ch_failed: usize = 0;
        let mut i: usize = 0;
        while i < self.details.len()
            invariant
                i <= self.details@.len(),
                ch_total == channel_count(self.details@.take(i as int)),
                ch_failed == channel_failed_count(self.details@.take(i as int)),
                ch_failed <= ch_total <= i,
            decreases self.details@.len() - i,
        {
            let d = &self.details[i];
            proof {
                assert(self.details@.take(i + 1).drop_last() =~= self.details@.take(i as int));
            }
            if str_contains(d.path.as_str(), "/ch/") {
                ch_total = ch_total + 1;
                match d.status {
                    ParamApplyStatus::Failed | ParamApplyStatus::Skipped => {
                        ch_failed = ch_failed + 1;
                    },
                    _ => {},
                }
            }
            i = i + 1;
        }
        proof {
            assert(self.details@.take(i as int) =~= self.details@);
        }
        ch_total > 0 && ch_failed == ch_total
    }
}

/// Outcome of applying parameters without validation: how many were set
/// and how many failed, and the channel parameters among them.
#[derive(Debug, Clone, Copy)]
pub struct ApplyTally {
    pub applied: usize,
    pub failed: usize,
    /// Channel parameters attempted.
    pub channel_params: usize,
    /// Channel parameters that failed.
    pub channel_failed: usize,
}

impl ApplyTally {
    /// Counts agree: failures and channel parameters are among those
    /// attempted.
    pub open spec fn wf(&self) -> bool {
        self.channel_failed <= self.channel_params <= self.applied + self.failed
            && self.channel_failed <= self.failed
    }

    /// Nothing attempted.
    pub fn new() -> (t: Self)
        ensures
            t.wf(),
            t.applied == 0 && t.failed == 0 && t.channel_params == 0 && t.channel_failed == 0,
    {
        ApplyTally { applied: 0, failed: 0, channel_params: 0, channel_failed: 0 }
    }

    /// Count the attempt to set the parameter at `path`, which succeeded
    /// when `ok`.
    pub fn record(&mut self, path: &str, ok: bool)
        requires
            old(self).wf(),
            old(self).applied + old(self).failed < usize::MAX,
        ensures
            final(self).wf(),
            final(self).applied == old(self).applied + if ok {
                1int
            } else {
                0
            },
            final(self).failed == old(self).failed + if ok {
                0int
            } else {
                1
            },
            final(self).channel_params == old(self).channel_params + if is_channel_path(path@) {
                1int
            } else {
                0
            },
            final(self).channel_failed == old(self).channel_failed + if is_channel_path(path@)
                && !ok {
                1int
            } else {
                0
            },
    {
        if ok {
            self.applied = self.applied + 1;
        } else {
            self.failed = self.failed + 1;
        }
        if str_contains(path, "/ch/") {
            self.channel_params = self.channel_params + 1;
            if !ok {
                self.channel_failed = self.channel_failed + 1;
            }
        }
    }

    /// Whether every channel parameter failed (and there was one).
    pub fn all_channel_params_failed(&self) -> (r: bool)
        ensures
            r == (self.channel_params > 0 && self.channel_failed == self.channel_params),
    {
        self.channel_params > 0 && self.channel_failed == self.channel_params
    }
}

/// Whether a configuration for `config_num_ch` channels fits a digitizer
/// reporting `hw_num_ch` channels (0: unknown, accepted).
pub fn num_channels_fit(hw_num_ch: u32, config_num_ch: u8) -> (r: bool)
    ensures
        r == !(hw_num_ch > 0 && config_num_ch > hw_num_ch),
{
    !(hw_num_ch > 0 && config_num_ch as u32 > hw_num_ch)
}

} // verus!
