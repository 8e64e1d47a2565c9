//! The decisions of the studio's observability history and metric export:
//! which runtime snapshots are recorded, which run ids may be looked up,
//! when an export is due, and how the exporter is configured.
use vstd::prelude::*;
use vstd::string::StringSliceAdditionalSpecFns;

use crate::providers::blank;
use crate::registry::str_equal;
use crate::studio::{parse_headers, safe_log, label_views, parsed_headers, without_line_breaks, MAX_LOG_CHARS};
use crate::text::push_char;

verus! {

/// The shortest time between two recorded samples of one running run.
pub const SAMPLE_INTERVAL_MS: u64 = 5000;

/// The export interval used when none valid is configured.
pub const DEFAULT_EXPORT_INTERVAL_MS: u64 = 10000;

/// The shortest configurable export interval.
pub const MIN_EXPORT_INTERVAL_MS: u64 = 1000;

/// The longest configurable export interval.
pub const MAX_EXPORT_INTERVAL_MS: u64 = 3600000;

/// The longest run id the history serves.
pub const MAX_RUN_ID_BYTES: usize = 96;

/// Whether a run status ends the run.
pub open spec fn terminal_status(status: Option<Seq<char>>) -> bool {
    match status {
        Some(s) => s == "completed"@ || s == "aborted"@ || s == "stopped"@,
        None => false,
    }
}

/// Decides whether a snapshot status ends its run.
pub fn is_terminal_status(status: Option<&str>) -> (r: bool)
    ensures
        r == terminal_status(
            match status {
                Some(s) => Some(s@),
                None => None,
            },
        ),
{
    match status {
        Some(s) => str_equal(s, "completed") || str_equal(s, "aborted") || str_equal(s, "stopped"),
        None => false,
    }
}

/// Which run is being sampled, when it was last sampled, and whether its
/// terminal snapshot is already saved.
#[derive(Debug)]
pub struct RecordingState {
    run_id: String,
    last_sample_ms: u64,
    terminal_saved: bool,
}

/// The abstract content of a recording state.
pub struct RecordingView {
    pub run_id: Seq<char>,
    pub last_sample_ms: u64,
    pub terminal_saved: bool,
}

impl View for RecordingState {
    type V = RecordingView;

    closed spec fn view(&self) -> RecordingView {
        RecordingView {
            run_id: self.run_id@,
            last_sample_ms: self.last_sample_ms,
            terminal_saved: self.terminal_saved,
        }
    }
}

/// The recording state of `run`: kept when it is the run already sampled,
/// reset otherwise.
pub open spec fn for_run(v: RecordingView, run: Seq<char>) -> RecordingView {
    if v.run_id == run {
        v
    } else {
        RecordingView { run_id: run, last_sample_ms: 0, terminal_saved: false }
    }
}

/// Whether a snapshot of `run` at `now_ms` is recorded: a terminal one once
/// per run, any other at least `SAMPLE_INTERVAL_MS` after the previous sample.
pub open spec fn sample_admitted(v: RecordingView, run: Seq<char>, now_ms: u64, terminal: bool) -> bool {
    let w = for_run(v, run);
    let due = now_ms >= w.last_sample_ms && now_ms - w.last_sample_ms >= SAMPLE_INTERVAL_MS;
    !((!terminal && !due) || (terminal && w.terminal_saved))
}

/// The recording state after a snapshot of `run` at `now_ms` is offered.
pub open spec fn after_sample(v: RecordingView, run: Seq<char>, now_ms: u64, terminal: bool) -> RecordingView {
    let w = for_run(v, run);
    if sample_admitted(v, run, now_ms, terminal) {
        RecordingView { last_sample_ms: now_ms, terminal_saved: w.terminal_saved || terminal, ..w }
    } else {
        w
    }
}

impl RecordingState {
    /// The state before any snapshot.
    pub fn new() -> (r: Self)
        ensures
            r@.run_id == Seq::<char>::empty(),
            r@.last_sample_ms == 0,
            !r@.terminal_saved,
    {
        RecordingState { run_id: String::new(), last_sample_ms: 0, terminal_saved: false }
    }

    /// Offers a snapshot of `run_id` taken at `now_ms`; returns whether it is
    /// recorded.
    pub fn offer(&mut self, run_id: &str, now_ms: u64, terminal: bool) -> (r: bool)
        ensures
            r == sample_admitted(old(self)@, run_id@, now_ms, terminal),
            final(self)@ == after_sample(old(self)@, run_id@, now_ms, terminal),
    {
        if !str_equal(self.run_id.as_str(), run_id) {
            self.run_id = run_id.to_owned();
            self.last_sample_ms = 0;
            self.terminal_saved = false;
        }
        let due = now_ms.saturating_sub(self.last_sample_ms) >= SAMPLE_INTERVAL_MS;
        if (!terminal && !due) || (terminal && self.terminal_saved) {
            return false;
        }
        self.last_sample_ms = now_ms;
        self.terminal_saved = self.terminal_saved || terminal;
        true
    }
}

/// A run's terminal snapshot is recorded at most once.
pub proof fn law_terminal_snapshot_recorded_once(v: RecordingView, run: Seq<char>, t1: u64, t2: u64)
    requires
        sample_admitted(v, run, t1, true),
    ensures
        !sample_admitted(after_sample(v, run, t1, true), run, t2, true),
{
}

/// Two recorded samples of a running run lie at least the sampling interval
/// apart.
pub proof fn law_running_samples_are_spaced(v: RecordingView, run: Seq<char>, t1: u64, t2: u64, terminal: bool)
    requires
        sample_admitted(v, run, t1, terminal),
        t1 <= t2 < t1 + SAMPLE_INTERVAL_MS,
    ensures
        !sample_admitted(after_sample(v, run, t1, terminal), run, t2, false),
{
}

/// A snapshot of another run starts that run's sampling afresh.
pub proof fn law_new_run_starts_afresh(v: RecordingView, run: Seq<char>, now_ms: u64, terminal: bool)
    requires
        v.run_id != run,
        now_ms >= SAMPLE_INTERVAL_MS || terminal,
    ensures
        sample_admitted(v, run, now_ms, terminal),
        after_sample(v, run, now_ms, terminal).run_id == run,
{
}

/// Whether a byte may appear in a run id: an ASCII letter or digit, `-` or
/// `_`.
pub open spec fn run_id_byte(b: u8) -> bool {
    (48 <= b <= 57) || (97 <= b <= 122) || (65 <= b <= 90) || b == 45 || b == 95
}

/// Decides whether `run_id` may be looked up in the history: 1 to 96 bytes,
/// each an ASCII letter or digit, `-` or `_`.
pub fn valid_run_id(run_id: &str) -> (r: bool)
    ensures
        r == (0 < run_id.spec_bytes().len() <= MAX_RUN_ID_BYTES && forall|i: int|
            0 <= i < run_id.spec_bytes().len() ==> run_id_byte(#[trigger] run_id.spec_bytes()[i])),
{
    let bytes = run_id.as_bytes();
    if bytes.len() == 0 || bytes.len() > MAX_RUN_ID_BYTES {
        return false;
    }
    let mut i: usize = 0;
    while i < bytes.len()
        invariant
            bytes@ == run_id.spec_bytes(),
            0 <= i <= bytes@.len(),
            forall|j: int| 0 <= j < i ==> run_id_byte(#[trigger] bytes@[j]),
        decreases bytes@.len() - i,
    {
        let b = bytes[i];
        // ASCII digits, lower and upper case letters, then `-` and `_`.
        let ok = (48 <= b && b <= 57) || (97 <= b && b <= 122) || (65 <= b && b <= 90) || b == 45
            || b == 95;
        if !ok {
            return false;
        }
        i = i + 1;
    }
    true
}

/// The last export attempt, the last success and the last error.
#[derive(Debug)]
pub struct ExportAttempt {
    pub last_attempt_ms: u64,
    pub last_success_ms: Option<u64>,
    pub last_error: Option<String>,
}

/// Whether an export at `now_ms` is due: at least `interval_ms` after the
/// last attempt.
pub open spec fn export_due(last_attempt_ms: u64, now_ms: u64, interval_ms: u64) -> bool {
    (if now_ms >= last_attempt_ms {
        now_ms - last_attempt_ms
    } else {
        0
    }) >= interval_ms
}

impl ExportAttempt {
    /// No attempt yet, with the configuration error if there is one.
    pub fn new(configuration_error: Option<String>) -> (r: Self)
        ensures
            r.last_attempt_ms == 0,
            r.last_success_ms is None,
            r.last_error == configuration_error,
    {
        ExportAttempt { last_attempt_ms: 0, last_success_ms: None, last_error: configuration_error }
    }

    /// Starts an attempt at `now_ms` when one is due; returns whether it did.
    pub fn begin(&mut self, now_ms: u64, interval_ms: u64) -> (r: bool)
        ensures
            r == export_due(old(self).last_attempt_ms, now_ms, interval_ms),
            r ==> final(self).last_attempt_ms == now_ms,
            !r ==> final(self).last_attempt_ms == old(self).last_attempt_ms,
            final(self).last_success_ms == old(self).last_success_ms,
            final(self).last_error == old(self).last_error,
    {
        if now_ms.saturating_sub(self.last_attempt_ms) < interval_ms {
            return false;
        }
        self.last_attempt_ms = now_ms;
        true
    }

    /// Records a delivered export completed at `completed_ms`.
    pub fn succeed(&mut self, completed_ms: u64)
        ensures
            final(self).last_attempt_ms == old(self).last_attempt_ms,
            final(self).last_success_ms == Some(completed_ms),
            final(self).last_error is None,
    {
        self.last_success_ms = Some(completed_ms);
        self.last_error = None;
    }

    /// Records a failed export: its reason, without line breaks and at most
    /// 512 characters. Returns the recorded reason.
    pub fn fail(&mut self, reason: &str) -> (r: String)
        ensures
            final(self).last_attempt_ms == old(self).last_attempt_ms,
            final(self).last_success_ms == old(self).last_success_ms,
            final(self).last_error matches Some(e) && e@ == r@,
            r@ == without_line_breaks(reason@).take(
                if without_line_breaks(reason@).len() < MAX_LOG_CHARS {
                    without_line_breaks(reason@).len() as int
                } else {
                    MAX_LOG_CHARS as int
                },
            ),
    {
        let message = safe_log(reason);
        self.last_error = Some(message.clone());
        message
    }

    /// The export status the studio reports.
    pub fn status(&self, endpoint: Option<String>, interval_ms: u64) -> (r: ExportStatus)
        ensures
            r.configured == endpoint is Some,
            r.endpoint == endpoint,
            r.protocol@ == "http/json"@,
            r.interval_ms == interval_ms,
            r.last_attempt_unix_ms == if self.last_attempt_ms > 0 {
                Some(self.last_attempt_ms)
            } else {
                None
            },
            r.last_success_unix_ms == self.last_success_ms,
            r.last_error == self.last_error,
    {
        ExportStatus {
            configured: endpoint.is_some(),
            endpoint,
            protocol: "http/json",
            interval_ms,
            last_attempt_unix_ms: if self.last_attempt_ms > 0 {
                Some(self.last_attempt_ms)
            } else {
                None
            },
            last_success_unix_ms: self.last_success_ms,
            last_error: self.last_error.clone(),
        }
    }
}

/// What the studio reports of the metric exporter.
#[derive(Clone, Debug)]
pub struct ExportStatus {
    pub configured: bool,
    pub endpoint: Option<String>,
    pub protocol: &'static str,
    pub interval_ms: u64,
    pub last_attempt_unix_ms: Option<u64>,
    pub last_success_unix_ms: Option<u64>,
    pub last_error: Option<String>,
}

/// Whether a character is an ASCII digit.
pub open spec fn digit(c: char) -> bool {
    '0' <= c <= '9'
}

/// The value of a string of decimal digits.
pub open spec fn digits_value(s: Seq<char>) -> int
    decreases s.len(),
{
    if s.len() == 0 {
        0
    } else {
        digits_value(s.drop_last()) * 10 + (s.last() as int - '0' as int)
    }
}

/// The digits of an unsigned number: the text after an optional `+`.
pub open spec fn unsigned_body(s: Seq<char>) -> Seq<char> {
    if s.len() > 0 && s[0] == '+' {
        s.skip(1)
    } else {
        s
    }
}

/// Whether every character is a decimal digit.
pub open spec fn all_digits(s: Seq<char>) -> bool {
    forall|i: int| 0 <= i < s.len() ==> digit(#[trigger] s[i])
}

/// The unsigned integer a text denotes: an optional `+`, then one or more
/// decimal digits, of a value that fits in `u64`.
pub open spec fn parsed_u64(s: Seq<char>) -> Option<u64> {
    let body = unsigned_body(s);
    if body.len() > 0 && all_digits(body) && digits_value(body) <= u64::MAX {
        Some(digits_value(body) as u64)
    } else {
        None
    }
}

proof fn lemma_digits_value_nonneg(s: Seq<char>)
    requires
        forall|i: int| 0 <= i < s.len() ==> digit(#[trigger] s[i]),
    ensures
        digits_value(s) >= 0,
    decreases s.len(),
{
    if s.len() > 0 {
        lemma_digits_value_nonneg(s.drop_last());
    }
}

proof fn lemma_digits_value_grows(s: Seq<char>, k: int)
    requires
        0 <= k <= s.len(),
        forall|i: int| 0 <= i < s.len() ==> digit(#[trigger] s[i]),
    ensures
        digits_value(s.take(k)) <= digits_value(s),
    decreases s.len() - k,
{
    if k < s.len() {
        lemma_digits_value_grows(s, k + 1);
        assert(s.take(k + 1).drop_last() =~= s.take(k));
        lemma_digits_value_nonneg(s.take(k));
    } else {
        assert(s.take(k) =~= s);
    }
}

/// Reads an unsigned decimal integer as `u64`'s `FromStr` does: an optional
/// `+`, then one or more digits, within range.
pub fn parse_u64(text: &str) -> (r: Option<u64>)
    ensures
        r == parsed_u64(text@),
{
    let chars = text.unicode_len();
    let mut start: usize = 0;
    if chars > 0 && text.get_char(0) == '+' {
        start = 1;
    }
    let ghost body = unsigned_body(text@);
    proof {
        assert(body =~= text@.skip(start as int));
    }
    if start == chars {
        return None;
    }
    let mut value: u64 = 0;
    let mut i: usize = start;
    while i < chars
        invariant
            chars == text@.len(),
            start <= i <= chars,
            start < chars,
            body == unsigned_body(text@),
            body == text@.skip(start as int),
            forall|j: int| 0 <= j < i - start ==> digit(#[trigger] body[j]),
            value == digits_value(body.take(i - start)),
        decreases chars - i,
    {
        let c = text.get_char(i);
        proof {
            assert(body[i - start] == c);
        }
        if !('0' <= c && c <= '9') {
            proof {
                assert(!digit(body[i - start]));
                assert(!all_digits(body));
            }
            return None;
        }
        let d = (c as u32 - '0' as u32) as u64;
        proof {
            assert(body.take(i - start + 1).drop_last() =~= body.take(i - start));
            assert(body.take(i - start + 1).last() == c);
        }
        let next = match value.checked_mul(10) {
            Some(v) => v.checked_add(d),
            None => None,
        };
        match next {
            Some(v) => {
                value = v;
            },
            None => {
                proof {
                    let k = i - start + 1;
                    if all_digits(body) {
                        lemma_digits_value_grows(body, k);
                        lemma_digits_value_nonneg(body.take(i - start));
                        assert(digits_value(body.take(k)) == digits_value(body.take(i - start)) * 10 + d);
                        assert(digits_value(body.take(k)) > u64::MAX);
                        assert(digits_value(body) > u64::MAX);
                    }
                }
                return None;
            },
        }
        i = i + 1;
    }
    proof {
        assert(body.take(chars - start) =~= body);
    }
    Some(value)
}

/// The trailing-slash-free form of an endpoint.
pub open spec fn without_trailing_slashes(s: Seq<char>) -> Seq<char>
    decreases s.len(),
{
    if s.len() > 0 && s.last() == '/' {
        without_trailing_slashes(s.drop_last())
    } else {
        s
    }
}

/// The metric endpoint under a base endpoint: the base without trailing
/// slashes, then `/v1/metrics`.
pub fn metrics_endpoint(base: &str) -> (r: String)
    ensures
        r@ == without_trailing_slashes(base@) + "/v1/metrics"@,
{
    let n = base.unicode_len();
    let mut end: usize = n;
    proof {
        assert(base@.take(n as int) =~= base@);
    }
    while end > 0 && base.get_char(end - 1) == '/'
        invariant
            n == base@.len(),
            0 <= end <= n,
            without_trailing_slashes(base@) == without_trailing_slashes(base@.take(end as int)),
        decreases end,
    {
        proof {
            assert(base@.take(end as int).drop_last() =~= base@.take(end - 1));
        }
        end = end - 1;
    }
    let mut out = String::new();
    let mut i: usize = 0;
    while i < end
        invariant
            n == base@.len(),
            0 <= i <= end <= n,
            out@ == base@.take(i as int),
            without_trailing_slashes(base@) == without_trailing_slashes(base@.take(end as int)),
            end == 0 || base@[end - 1] != '/',
        decreases end - i,
    {
        push_char(&mut out, base.get_char(i));
        proof {
            assert(base@.take(i + 1) =~= base@.take(i as int).push(base@[i as int]));
        }
        i = i + 1;
    }
    proof {
        assert(without_trailing_slashes(base@.take(end as int)) == base@.take(end as int));
    }
    out.append("/v1/metrics");
    out
}

/// The exporter configuration as the environment gives it, each value
/// present only when its variable is set.
pub struct ExporterEnvironment {
    pub metrics_endpoint: Option<String>,
    pub endpoint: Option<String>,
    pub metrics_protocol: Option<String>,
    pub protocol: Option<String>,
    pub metrics_headers: Option<String>,
    pub headers: Option<String>,
    pub interval: Option<String>,
}

/// The exporter settings drawn from the environment.
#[derive(Debug)]
pub struct ExporterSettings {
    /// Where metrics are sent; none when unconfigured or the protocol is
    /// unsupported.
    pub endpoint: Option<String>,
    /// The protocol asked for.
    pub protocol: String,
    /// Extra request headers.
    pub headers: Vec<(String, String)>,
    /// The time between exports.
    pub interval_ms: u64,
    /// Why a configured endpoint is not used.
    pub configuration_error: Option<String>,
}

/// The text of an optional string.
pub open spec fn opt_view(o: Option<String>) -> Option<Seq<char>> {
    match o {
        Some(s) => Some(s@),
        None => None,
    }
}

/// A configured, non-blank value.
pub open spec fn nonblank(o: Option<Seq<char>>) -> Option<Seq<char>> {
    match o {
        Some(s) => if blank(s) {
            None
        } else {
            Some(s)
        },
        None => None,
    }
}

/// The endpoint asked for: the metric endpoint when set and not blank, else
/// the metric path under the base endpoint when that is set and not blank.
pub open spec fn requested_endpoint(env: ExporterEnvironment) -> Option<Seq<char>> {
    match nonblank(opt_view(env.metrics_endpoint)) {
        Some(e) => Some(e),
        None => match nonblank(opt_view(env.endpoint)) {
            Some(b) => Some(without_trailing_slashes(b) + "/v1/metrics"@),
            None => None,
        },
    }
}

/// The protocol asked for; `http/json` by default.
pub open spec fn requested_protocol(env: ExporterEnvironment) -> Seq<char> {
    match opt_view(env.metrics_protocol) {
        Some(p) => p,
        None => match opt_view(env.protocol) {
            Some(p) => p,
            None => "http/json"@,
        },
    }
}

/// The export interval asked for, when it is a number from one second to
/// one hour; ten seconds otherwise.
pub open spec fn requested_interval(env: ExporterEnvironment) -> u64 {
    match opt_view(env.interval) {
        Some(t) => match parsed_u64(t) {
            Some(v) => if MIN_EXPORT_INTERVAL_MS <= v <= MAX_EXPORT_INTERVAL_MS {
                v
            } else {
                DEFAULT_EXPORT_INTERVAL_MS
            },
            None => DEFAULT_EXPORT_INTERVAL_MS,
        },
        None => DEFAULT_EXPORT_INTERVAL_MS,
    }
}

/// The header list asked for.
pub open spec fn requested_headers(env: ExporterEnvironment) -> Seq<(Seq<char>, Seq<char>)> {
    match opt_view(env.metrics_headers) {
        Some(h) => parsed_headers(h),
        None => match opt_view(env.headers) {
            Some(h) => parsed_headers(h),
            None => Seq::empty(),
        },
    }
}

fn present_nonblank(value: &Option<String>) -> (r: Option<&str>)
    ensures
        match r {
            Some(s) => nonblank(opt_view(*value)) == Some(s@),
            None => nonblank(opt_view(*value)) is None,
        },
{
    match value {
        Some(s) => if crate::providers::is_blank(s.as_str()) {
            None
        } else {
            Some(s.as_str())
        },
        None => None,
    }
}

/// Draws the exporter settings from the environment. An endpoint with a
/// protocol other than `http/json` is not used, and the settings say why.
pub fn exporter_settings(env: &ExporterEnvironment) -> (r: ExporterSettings)
    ensures
        r.protocol@ == requested_protocol(*env),
        r.interval_ms == requested_interval(*env),
        label_views(r.headers@) == requested_headers(*env),
        requested_protocol(*env) == "http/json"@ ==> opt_view(r.endpoint) == requested_endpoint(*env)
            && r.configuration_error is None,
        requested_protocol(*env) != "http/json"@ ==> r.endpoint is None && (match requested_endpoint(*env) {
            Some(_) => r.configuration_error matches Some(m) && m@ == "unsupported protocol "@
                + requested_protocol(*env) + "; expected http/json"@,
            None => r.configuration_error is None,
        }),
{
    let endpoint = match present_nonblank(&env.metrics_endpoint) {
        Some(e) => Some(e.to_owned()),
        None => match present_nonblank(&env.endpoint) {
            Some(b) => Some(metrics_endpoint(b)),
            None => None,
        },
    };
    let protocol = match &env.metrics_protocol {
        Some(p) => p.clone(),
        None => match &env.protocol {
            Some(p) => p.clone(),
            None => "http/json".to_owned(),
        },
    };
    let headers = match &env.metrics_headers {
        Some(h) => parse_headers(h.as_str()),
        None => match &env.headers {
            Some(h) => parse_headers(h.as_str()),
            None => Vec::new(),
        },
    };
    let interval_ms = match &env.interval {
        Some(t) => match parse_u64(t.as_str()) {
            Some(v) => if MIN_EXPORT_INTERVAL_MS <= v && v <= MAX_EXPORT_INTERVAL_MS {
                v
            } else {
                DEFAULT_EXPORT_INTERVAL_MS
            },
            None => DEFAULT_EXPORT_INTERVAL_MS,
        },
        None => DEFAULT_EXPORT_INTERVAL_MS,
    };
    proof {
        assert(label_views(Seq::<(String, String)>::empty()) =~= Seq::<(Seq<char>, Seq<char>)>::empty());
    }
    if str_equal(protocol.as_str(), "http/json") {
        ExporterSettings { endpoint, protocol, headers, interval_ms, configuration_error: None }
    } else {
        let configuration_error = match endpoint {
            Some(_) => {
                let mut m = "unsupported protocol ".to_owned();
                m.append(protocol.as_str());
                m.append("; expected http/json");
                Some(m)
            },
            None => None,
        };
        ExporterSettings { endpoint: None, protocol, headers, interval_ms, configuration_error }
    }
}

} // verus!
