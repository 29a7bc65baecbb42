//! Benchmark configuration: the stop condition, durations such as `10s`,
//! `1m` or `500ms`, and `Key: Value` headers, built from the arguments.

use std::time::Duration;
use vstd::prelude::*;
use vstd::string::*;

use crate::cli::{Args, Method};
pub use crate::headers::Headers;
use crate::text::{
    all_digits, all_ws, decimal, is_ws, lemma_parse_decimal, lemma_trim_padding, chars_of, is_digit, lemma_trim_idempotent, parse_u64, parse_u64_chars, trim,
    trim_end, trim_start, trim_str,
};

verus! {

/// Defines when the benchmark should stop
#[derive(Debug, Clone)]
pub enum StopCondition {
    /// Stop after N requests
    Requests(usize),
    /// Stop after duration
    Duration(Duration),
    /// Run until interrupted (Ctrl+C)
    Infinite,
}

/// HTTP method for requests
#[derive(Debug, Clone, Copy, PartialEq, Eq, Structural)]
pub enum HttpMethod {
    Get,
    Post,
    Put,
    Delete,
    Patch,
    Head,
    Options,
}

/// The request method that a method chosen on the command line stands for.
pub open spec fn method_of(m: Method) -> HttpMethod {
    match m {
        Method::Get => HttpMethod::Get,
        Method::Post => HttpMethod::Post,
        Method::Put => HttpMethod::Put,
        Method::Delete => HttpMethod::Delete,
        Method::Patch => HttpMethod::Patch,
        Method::Head => HttpMethod::Head,
        Method::Options => HttpMethod::Options,
    }
}

impl From<Method> for HttpMethod {
    fn from(m: Method) -> (r: Self) {
        match m {
            Method::Get => HttpMethod::Get,
            Method::Post => HttpMethod::Post,
            Method::Put => HttpMethod::Put,
            Method::Delete => HttpMethod::Delete,
            Method::Patch => HttpMethod::Patch,
            Method::Head => HttpMethod::Head,
            Method::Options => HttpMethod::Options,
        }
    }
}

impl vstd::std_specs::convert::FromSpecImpl<Method> for HttpMethod {
    open spec fn obeys_from_spec() -> bool {
        true
    }

    open spec fn from_spec(m: Method) -> HttpMethod {
        method_of(m)
    }
}

/// Benchmark configuration
#[derive(Debug, Clone)]
pub struct BenchConfig {
    pub url: String,
    pub method: HttpMethod,
    pub concurrency: usize,
    pub stop_condition: StopCondition,
    pub headers: Headers,
    pub body: Option<String>,
    pub timeout: Duration,
    /// Target requests per second (rate limit)
    pub rate: Option<u64>,
}

/// The stop condition that a request count or a duration text gives, or
/// `None` where the duration text denotes no duration.
pub open spec fn stop_condition_of(requests: Option<usize>, duration: Option<String>) -> Option<
    StopCondition,
> {
    match (requests, duration) {
        (Some(n), None) => Some(StopCondition::Requests(n)),
        (None, Some(d)) => match duration_of(d@) {
            Some(span) => Some(StopCondition::Duration(span)),
            None => None,
        },
        _ => Some(StopCondition::Infinite),
    }
}

/// The arguments `BenchConfig::from_args` accepts: a request count and a
/// duration are not both given, and a duration in minutes fits in 64 bits of
/// seconds.
pub open spec fn args_admissible(args: &Args) -> bool {
    &&& !(args.requests is Some && args.duration is Some)
    &&& args.duration matches Some(d) ==> !minutes_overflow(d@)
}

/// Why `BenchConfig::from_args` refuses the arguments, or `None` where it
/// accepts them: a duration text that denotes no duration comes first, then
/// the first header line without `:`.
pub open spec fn config_fault(args: &Args) -> Option<ConfigFault> {
    match stop_condition_of(args.requests, args.duration) {
        None => Some(ConfigFault::InvalidDuration(trim(args.duration->0@))),
        Some(_) => match headers_of(args.headers.deep_view()) {
            Err(bad) => Some(ConfigFault::InvalidHeader(bad)),
            Ok(_) => None,
        },
    }
}

impl BenchConfig {
    /// Create config from CLI arguments
    pub fn from_args(args: Args) -> (r: Result<Self, ConfigError>)
        requires
            args_admissible(&args),
        ensures
            r is Ok <==> config_fault(&args) is None,
            r matches Err(e) ==> config_fault(&args) == Some(e@),
            match stop_condition_of(args.requests, args.duration) {
                None => r matches Err(e) && e@ == ConfigFault::InvalidDuration(
                    trim(args.duration->0@),
                ),
                Some(stop) => match headers_of(args.headers.deep_view()) {
                    Err(bad) => r matches Err(e) && e@ == ConfigFault::InvalidHeader(bad),
                    Ok(m) => r matches Ok(c) && {
                        &&& c.url == args.url
                        &&& c.method == method_of(args.method)
                        &&& c.concurrency == args.concurrency
                        &&& c.stop_condition == stop
                        &&& c.headers@ == m
                        &&& c.body == args.body
                        &&& c.timeout == secs_span(args.timeout)
                        &&& c.rate == args.rate
                    },
                },
            },
    {
        let stop_condition = match (args.requests, &args.duration) {
            (Some(n), None) => StopCondition::Requests(n),
            (None, Some(d)) => match parse_duration(d.as_str()) {
                Ok(span) => StopCondition::Duration(span),
                Err(e) => {
                    return Err(e);
                },
            },
            _ => StopCondition::Infinite,
        };
        let headers = match parse_headers(args.headers.as_slice()) {
            Ok(h) => h,
            Err(e) => {
                return Err(e);
            },
        };
        Ok(BenchConfig {
            url: args.url,
            method: HttpMethod::from(args.method),
            concurrency: args.concurrency,
            stop_condition,
            headers,
            body: args.body,
            timeout: duration_from_secs(args.timeout),
            rate: args.rate,
        })
    }
}

// ---------------------------------------------------------------------------
// Durations
// ---------------------------------------------------------------------------

/// The span that `Duration::from_secs` gives for a number of seconds. A
/// `Duration` is held as an opaque value, so spans are named, not computed.
pub uninterp spec fn secs_span(secs: u64) -> Duration;

/// The span that `Duration::from_millis` gives for a number of milliseconds.
pub uninterp spec fn millis_span(ms: u64) -> Duration;

/// `Clone::clone` of `std::time::Duration`, a `Copy` type: it gives the same
/// span.
pub assume_specification[ <std::time::Duration as Clone>::clone ](d: &std::time::Duration) -> (r: std::time::Duration)
    ensures
        r == *d,
;

/// Calls `Duration::from_secs`; the result is the span named `secs_span` for
/// the same number of seconds. Spans compare by their length: no other number
/// of seconds gives the same span, and a number of milliseconds gives it
/// exactly when it is 1000 times the seconds.
#[verifier::external_body]
fn duration_from_secs(secs: u64) -> (d: Duration)
    ensures
        d == secs_span(secs),
        forall|other: u64| #[trigger] secs_span(other) == d ==> other == secs,
        forall|ms: u64| #[trigger] millis_span(ms) == d <==> ms == secs * 1000,
{
    Duration::from_secs(secs)
}

/// Calls `Duration::from_millis`; the result is the span named `millis_span`
/// for the same number of milliseconds. Spans compare by their length: no
/// other number of milliseconds gives the same span, and a number of seconds
/// gives it exactly when 1000 times it is the milliseconds.
#[verifier::external_body]
fn duration_from_millis(ms: u64) -> (d: Duration)
    ensures
        d == millis_span(ms),
        forall|other: u64| #[trigger] millis_span(other) == d ==> other == ms,
        forall|secs: u64| #[trigger] secs_span(secs) == d <==> secs * 1000 == ms,
{
    Duration::from_millis(ms)
}

/// The text ends in the unit `ms`.
pub open spec fn has_ms_suffix(t: Seq<char>) -> bool {
    t.len() >= 2 && t[t.len() - 2] == 'm' && t[t.len() - 1] == 's'
}

/// The text ends in the unit `s` (and not in `ms`).
pub open spec fn has_s_suffix(t: Seq<char>) -> bool {
    !has_ms_suffix(t) && t.len() >= 1 && t[t.len() - 1] == 's'
}

/// The text ends in the unit `m`.
pub open spec fn has_m_suffix(t: Seq<char>) -> bool {
    !has_ms_suffix(t) && t.len() >= 1 && t[t.len() - 1] == 'm'
}

/// The number in front of a one-letter unit.
pub open spec fn before_unit(t: Seq<char>, unit_len: int) -> Option<u64> {
    parse_u64(t.subrange(0, t.len() - unit_len))
}

/// A duration in minutes whose number of seconds does not fit in 64 bits:
/// the one input on which the multiplication by 60 overflows.
pub open spec fn minutes_overflow(s: Seq<char>) -> bool {
    let t = trim(s);
    &&& has_m_suffix(t)
    &&& before_unit(t, 1) matches Some(n) && n * 60 > u64::MAX
}

/// The duration that a text such as `500ms`, `10s`, `2m` or `7` denotes
/// (white space around it ignored, a bare number counts seconds), or `None`
/// where it denotes none.
pub open spec fn duration_of(s: Seq<char>) -> Option<Duration> {
    let t = trim(s);
    if has_ms_suffix(t) {
        match before_unit(t, 2) {
            Some(n) => Some(millis_span(n)),
            None => None,
        }
    } else if has_s_suffix(t) {
        match before_unit(t, 1) {
            Some(n) => Some(secs_span(n)),
            None => None,
        }
    } else if has_m_suffix(t) {
        match before_unit(t, 1) {
            Some(n) => Some(secs_span((n * 60) as u64)),
            None => None,
        }
    } else {
        match parse_u64(t) {
            Some(n) => Some(secs_span(n)),
            None => None,
        }
    }
}

/// Whether `s` can be handed to `parse_duration`: false exactly where its
/// number of minutes, counted in seconds, overflows 64 bits.
pub fn duration_in_range(s: &str) -> (b: bool)
    ensures
        b == !minutes_overflow(s@),
{
    let t = trim_str(s);
    let v = chars_of(t);
    let n = v.len();
    if n >= 1 && v[n - 1] == 'm' && !(n >= 2 && v[n - 2] == 'm' && v[n - 1] == 's') {
        match parse_u64_chars(&v, 0, n - 1) {
            Some(mins) => mins <= u64::MAX / 60,
            None => true,
        }
    } else {
        true
    }
}

/// Parse duration string: `<n>ms`, `<n>s`, `<n>m` or a bare number of
/// seconds, with white space around it ignored.
pub fn parse_duration(s: &str) -> (r: Result<Duration, ConfigError>)
    requires
        !minutes_overflow(s@),
    ensures
        match duration_of(s@) {
            Some(d) => r == Ok::<Duration, ConfigError>(d),
            None => r matches Err(e) && e@ == ConfigFault::InvalidDuration(trim(s@)),
        },
{
    let t = trim_str(s);
    let v = chars_of(t);
    let n = v.len();
    if n >= 2 && v[n - 2] == 'm' && v[n - 1] == 's' {
        return match parse_u64_chars(&v, 0, n - 2) {
            Some(ms) => Ok(duration_from_millis(ms)),
            None => Err(ConfigError::InvalidDuration(t.to_owned())),
        };
    }
    if n >= 1 && v[n - 1] == 's' {
        return match parse_u64_chars(&v, 0, n - 1) {
            Some(secs) => Ok(duration_from_secs(secs)),
            None => Err(ConfigError::InvalidDuration(t.to_owned())),
        };
    }
    if n >= 1 && v[n - 1] == 'm' {
        return match parse_u64_chars(&v, 0, n - 1) {
            Some(mins) => Ok(duration_from_secs(mins * 60)),
            None => Err(ConfigError::InvalidDuration(t.to_owned())),
        };
    }
    assert(v@.subrange(0, n as int) =~= v@);
    match parse_u64_chars(&v, 0, n) {
        Some(secs) => Ok(duration_from_secs(secs)),
        None => Err(ConfigError::InvalidDuration(t.to_owned())),
    }
}

// ---------------------------------------------------------------------------
// Errors
// ---------------------------------------------------------------------------

/// A configuration that cannot be built from the arguments.
#[derive(Debug)]
pub enum ConfigError {
    InvalidDuration(String),
    InvalidHeader(String),
}

/// What a `ConfigError` holds, as text.
pub enum ConfigFault {
    InvalidDuration(Seq<char>),
    InvalidHeader(Seq<char>),
}

impl View for ConfigError {
    type V = ConfigFault;

    open spec fn view(&self) -> ConfigFault {
        match self {
            ConfigError::InvalidDuration(s) => ConfigFault::InvalidDuration(s@),
            ConfigError::InvalidHeader(s) => ConfigFault::InvalidHeader(s@),
        }
    }
}

/// The text shown for an error.
pub open spec fn fault_message(f: ConfigFault) -> Seq<char> {
    match f {
        ConfigFault::InvalidDuration(s) => "Invalid duration: '"@ + s
            + "'. Use format like 10s, 1m, 500ms"@,
        ConfigFault::InvalidHeader(s) => "Invalid header: '"@ + s + "'. Use format 'Key: Value'"@,
    }
}

impl ConfigError {
    /// The text shown for the error (what its `Display` gives).
    pub fn message(&self) -> (r: String)
        ensures
            r@ == fault_message(self@),
    {
        match self {
            ConfigError::InvalidDuration(s) => {
                let mut r = String::new();
                r.append("Invalid duration: '");
                r.append(s.as_str());
                r.append("'. Use format like 10s, 1m, 500ms");
                r
            },
            ConfigError::InvalidHeader(s) => {
                let mut r = String::new();
                r.append("Invalid header: '");
                r.append(s.as_str());
                r.append("'. Use format 'Key: Value'");
                r
            },
        }
    }
}


// ---------------------------------------------------------------------------
// Headers
// ---------------------------------------------------------------------------

/// The first `:` of a header line, where it has one.
pub open spec fn first_colon(h: Seq<char>, i: int) -> bool {
    0 <= i < h.len() && h[i] == ':' && forall|j: int| 0 <= j < i ==> h[j] != ':'
}

/// The key and value a header line `Key: Value` gives (both trimmed), split
/// at its first `:`, or `None` where it holds no `:`.
pub open spec fn header_entry(h: Seq<char>) -> Option<(Seq<char>, Seq<char>)> {
    if exists|i: int| first_colon(h, i) {
        let i = choose|i: int| first_colon(h, i);
        Some((trim(h.subrange(0, i)), trim(h.subrange(i + 1, h.len() as int))))
    } else {
        None
    }
}

/// The key of a header line (empty where it has none).
pub open spec fn header_key(h: Seq<char>) -> Seq<char> {
    match header_entry(h) {
        Some(kv) => kv.0,
        None => Seq::empty(),
    }
}

/// The value of a header line (empty where it has none).
pub open spec fn header_value(h: Seq<char>) -> Seq<char> {
    match header_entry(h) {
        Some(kv) => kv.1,
        None => Seq::empty(),
    }
}

/// The headers that a list of header lines gives, or the first line that is
/// not of the form `Key: Value`.
pub open spec fn headers_of(hs: Seq<Seq<char>>) -> Result<Map<Seq<char>, Seq<char>>, Seq<char>>
    decreases hs.len(),
{
    if hs.len() == 0 {
        Ok(Map::empty())
    } else {
        match headers_of(hs.drop_last()) {
            Err(bad) => Err(bad),
            Ok(m) => match header_entry(hs.last()) {
                Some(kv) => Ok(m.insert(kv.0, kv.1)),
                None => Err(hs.last()),
            },
        }
    }
}

proof fn lemma_headers_error_stays(hs: Seq<Seq<char>>, i: int, bad: Seq<char>)
    requires
        0 <= i <= hs.len(),
        headers_of(hs.subrange(0, i)) == Err::<Map<Seq<char>, Seq<char>>, Seq<char>>(bad),
    ensures
        headers_of(hs) == Err::<Map<Seq<char>, Seq<char>>, Seq<char>>(bad),
    decreases hs.len() - i,
{
    if i == hs.len() {
        assert(hs.subrange(0, i) =~= hs);
    } else {
        assert(hs.subrange(0, i + 1).drop_last() =~= hs.subrange(0, i));
        lemma_headers_error_stays(hs, i + 1, bad);
    }
}

/// The position of the first `:` in `v`.
fn find_colon(v: &Vec<char>) -> (r: Option<usize>)
    ensures
        match r {
            Some(i) => first_colon(v@, i as int),
            None => !exists|i: int| first_colon(v@, i),
        },
{
    let n = v.len();
    let mut i: usize = 0;
    while i < n
        invariant
            n == v@.len(),
            i <= n,
            forall|j: int| 0 <= j < i ==> v@[j] != ':',
        decreases n - i,
    {
        if v[i] == ':' {
            return Some(i);
        }
        i = i + 1;
    }
    None
}

/// Parse header strings of the form `Key: Value`.
pub fn parse_headers(headers: &[String]) -> (r: Result<Headers, ConfigError>)
    ensures
        match headers_of(headers.deep_view()) {
            Ok(m) => r matches Ok(h) && h@ == m,
            Err(bad) => r matches Err(e) && e@ == ConfigFault::InvalidHeader(bad),
        },
{
    let ghost hs = headers.deep_view();
    let mut map = Headers::new();
    let n = headers.len();
    let mut idx: usize = 0;
    assert(hs.subrange(0, 0) =~= Seq::<Seq<char>>::empty());
    while idx < n
        invariant
            n == headers@.len(),
            hs == headers.deep_view(),
            hs.len() == n,
            idx <= n,
            headers_of(hs.subrange(0, idx as int)) == Ok::<Map<Seq<char>, Seq<char>>, Seq<char>>(map@),
        decreases n - idx,
    {
        let h = &headers[idx];
        assert(hs[idx as int] == h@);
        assert(hs.subrange(0, idx + 1).drop_last() =~= hs.subrange(0, idx as int));
        assert(hs.subrange(0, idx + 1).last() == h@);
        let v = chars_of(h.as_str());
        match find_colon(&v) {
            None => {
                proof {
                    lemma_headers_error_stays(hs, idx + 1, h@);
                }
                return Err(ConfigError::InvalidHeader(h.clone()));
            },
            Some(c) => {
                assert(c < v.len());
                let key = trim_str(h.as_str().substring_char(0, c)).to_owned();
                let value = trim_str(h.as_str().substring_char(c + 1, v.len())).to_owned();
                proof {
                    let i = choose|i: int| first_colon(h@, i);
                    assert(i == c as int) by {
                        if i < c {
                            assert(v@[i] != ':');
                        } else if c < i {
                            assert(h@[c as int] != ':');
                        }
                    }
                }
                map.insert(key, value);
            },
        }
        idx = idx + 1;
    }
    assert(hs.subrange(0, n as int) =~= hs);
    Ok(map)
}

// ---------------------------------------------------------------------------
// Laws
// ---------------------------------------------------------------------------

/// Each method chosen on the command line gives a request method of its own:
/// the conversion loses nothing.
pub proof fn law_method_conversion_injective(a: Method, b: Method)
    ensures
        method_of(a) == method_of(b) ==> a == b,
{
}

/// White space around a duration text does not change what it denotes.
pub proof fn law_duration_ignores_surrounding_space(s: Seq<char>)
    ensures
        duration_of(trim(s)) == duration_of(s),
        minutes_overflow(trim(s)) == minutes_overflow(s),
{
    lemma_trim_idempotent(s);
}

/// A bare number counts seconds: it denotes what the same number with the
/// unit `s` denotes.
pub proof fn law_bare_number_is_seconds(d: Seq<char>)
    requires
        d.len() > 0,
        all_digits(d),
    ensures
        duration_of(d) == duration_of(d.push('s')),
{
    let t = d.push('s');
    assert(is_digit(d[0]) && is_digit(d.last()));
    assert(t[0] == d[0]);
    assert(t.drop_last() =~= d);
    assert(trim_start(d) == d);
    assert(trim_end(d) == d);
    assert(trim_start(t) == t);
    assert(trim_end(t) == t);
    assert(t.subrange(0, t.len() - 1) =~= d);
}

/// A header list is refused exactly when one of its lines holds no `:`, and
/// then the first such line is the one reported.
pub proof fn law_headers_refuse_first_bad_line(hs: Seq<Seq<char>>)
    ensures
        headers_of(hs) is Err <==> exists|i: int|
            0 <= i < hs.len() && header_entry(#[trigger] hs[i]) is None,
        headers_of(hs) matches Err(bad) ==> exists|i: int|
            0 <= i < hs.len() && hs[i] == bad && header_entry(#[trigger] hs[i]) is None && forall|
                j: int,
            | 0 <= j < i ==> header_entry(#[trigger] hs[j]) is Some,
    decreases hs.len(),
{
    if hs.len() > 0 {
        let p = hs.drop_last();
        law_headers_refuse_first_bad_line(p);
        assert forall|i: int| 0 <= i < p.len() implies p[i] == hs[i] by {}
        if headers_of(p) is Ok && header_entry(hs.last()) is None {
            let last = hs.len() - 1;
            assert(header_entry(hs[last]) is None);
            assert forall|j: int| 0 <= j < last implies header_entry(#[trigger] hs[j]) is Some by {
                assert(hs[j] == p[j]);
            }
        }
        if headers_of(p) is Err {
            let i = choose|i: int|
                0 <= i < p.len() && header_entry(#[trigger] p[i]) is None;
            assert(hs[i] == p[i]);
        }
        if exists|i: int| 0 <= i < hs.len() && header_entry(#[trigger] hs[i]) is None {
            let i = choose|i: int| 0 <= i < hs.len() && header_entry(#[trigger] hs[i]) is None;
            if i < p.len() {
                assert(p[i] == hs[i]);
            }
        }
    }
}

/// When a header list is accepted, its keys are the keys of its lines, and
/// each key has the value of the last line that names it.
pub proof fn law_headers_last_line_wins(hs: Seq<Seq<char>>)
    requires
        headers_of(hs) is Ok,
    ensures
        forall|k: Seq<char>|
            headers_of(hs)->Ok_0.contains_key(k) <==> exists|i: int|
                0 <= i < hs.len() && #[trigger] header_key(hs[i]) == k,
        forall|i: int|
            0 <= i < hs.len() && (forall|j: int|
                i < j < hs.len() ==> #[trigger] header_key(hs[j]) != header_key(hs[i])) ==> headers_of(hs)->Ok_0[#[trigger] header_key(hs[i])]
                == header_value(hs[i]),
    decreases hs.len(),
{
    if hs.len() > 0 {
        let p = hs.drop_last();
        law_headers_last_line_wins(p);
        law_headers_refuse_first_bad_line(hs);
        let m = headers_of(p)->Ok_0;
        let last = hs.len() - 1;
        assert(hs[last] == hs.last());
        assert forall|k: Seq<char>|
            headers_of(hs)->Ok_0.contains_key(k) <==> exists|i: int|
                0 <= i < hs.len() && #[trigger] header_key(hs[i]) == k by {
            if headers_of(hs)->Ok_0.contains_key(k) && k != header_key(hs.last()) {
                let i = choose|i: int|
                    0 <= i < p.len() && #[trigger] header_key(p[i]) == k;
                assert(p[i] == hs[i]);
            }
            if exists|i: int| 0 <= i < hs.len() && #[trigger] header_key(hs[i]) == k {
                let i = choose|i: int|
                    0 <= i < hs.len() && #[trigger] header_key(hs[i]) == k;
                if i < last {
                    assert(p[i] == hs[i]);
                }
            }
        }
        assert forall|i: int|
            0 <= i < hs.len() && (forall|j: int|
                i < j < hs.len() ==> #[trigger] header_key(hs[j]) != header_key(hs[i])) implies headers_of(hs)->Ok_0[#[trigger] header_key(hs[i])]
            == header_value(hs[i]) by {
            if i < last {
                assert(p[i] == hs[i]);
                assert(header_key(hs[last]) != header_key(hs[i]));
                assert forall|j: int| i < j < p.len() implies #[trigger] header_key(p[j])
                    != header_key(p[i]) by {
                    assert(p[j] == hs[j]);
                }
            }
        }
    }
}

/// White space put before or after a duration text changes neither what it
/// denotes nor the text an error reports.
pub proof fn law_duration_ignores_padding(before: Seq<char>, s: Seq<char>, after: Seq<char>)
    requires
        all_ws(before),
        all_ws(after),
    ensures
        duration_of(before + s + after) == duration_of(s),
        trim(before + s + after) == trim(s),
        minutes_overflow(before + s + after) == minutes_overflow(s),
{
    lemma_trim_padding(before, s, after);
}

/// The stop condition follows the arguments: a request count stops after that
/// many requests, a duration text after the span it denotes, and neither
/// means running until interrupted.
pub proof fn law_stop_condition_follows_arguments(
    requests: Option<usize>,
    duration: Option<String>,
)
    requires
        !(requests is Some && duration is Some),
    ensures
        match (requests, duration) {
            (Some(n), None) => stop_condition_of(requests, duration) == Some(
                StopCondition::Requests(n),
            ),
            (None, Some(d)) => match duration_of(d@) {
                Some(span) => stop_condition_of(requests, duration) == Some(
                    StopCondition::Duration(span),
                ),
                None => stop_condition_of(requests, duration) is None,
            },
            _ => stop_condition_of(requests, duration) == Some(StopCondition::Infinite),
        },
{
}

/// Once the stop condition is accepted, the arguments are refused exactly when
/// a header line holds no `:`, and then for the first such line.
pub proof fn law_header_errors_through_from_args(args: &Args)
    requires
        args_admissible(args),
        stop_condition_of(args.requests, args.duration) is Some,
    ensures
        config_fault(args) is None <==> headers_of(args.headers.deep_view()) is Ok,
        config_fault(args) is Some <==> exists|i: int|
            0 <= i < args.headers.deep_view().len() && header_entry(
                #[trigger] args.headers.deep_view()[i],
            ) is None,
        config_fault(args) matches Some(f) ==> exists|i: int|
            0 <= i < args.headers.deep_view().len() && f == ConfigFault::InvalidHeader(
                args.headers.deep_view()[i],
            ) && header_entry(#[trigger] args.headers.deep_view()[i]) is None && forall|j: int|
                0 <= j < i ==> header_entry(#[trigger] args.headers.deep_view()[j]) is Some,
{
    law_headers_refuse_first_bad_line(args.headers.deep_view());
}

/// A header line `key:value` whose key holds no `:` maps the trimmed key to
/// the trimmed value: the whole rest of the line after the first `:`, with
/// inner spaces and any further `:` kept. A list of one such line gives the
/// map of that one header.
pub proof fn law_header_line_splits_at_first_colon(key: Seq<char>, value: Seq<char>)
    requires
        forall|j: int| 0 <= j < key.len() ==> key[j] != ':',
    ensures
        header_entry(key + seq![':'] + value) == Some((trim(key), trim(value))),
        headers_of(seq![key + seq![':'] + value]) == Ok::<Map<Seq<char>, Seq<char>>, Seq<char>>(
            Map::empty().insert(trim(key), trim(value)),
        ),
{
    let h = key + seq![':'] + value;
    let n = key.len() as int;
    assert(h[n] == ':');
    assert forall|j: int| 0 <= j < n implies h[j] != ':' by {
        assert(h[j] == key[j]);
    }
    assert(first_colon(h, n));
    let i = choose|i: int| first_colon(h, i);
    assert(i == n) by {
        if i < n {
            assert(h[i] == key[i]);
        }
    }
    assert(h.subrange(0, n) =~= key);
    assert(h.subrange(n + 1, h.len() as int) =~= value);
    let hs = seq![h];
    assert(hs.drop_last() =~= Seq::<Seq<char>>::empty());
    assert(hs.last() == h);
    assert(headers_of(hs.drop_last()) == Ok::<Map<Seq<char>, Seq<char>>, Seq<char>>(
        Map::empty(),
    ));
}

/// A text with no white space at either end is its own trimmed form.
proof fn lemma_trim_keeps_tight(t: Seq<char>)
    requires
        t.len() > 0,
        !is_ws(t[0]),
        !is_ws(t.last()),
    ensures
        trim(t) == t,
{
    assert(trim_start(t) == t);
    assert(trim_end(t) == t);
}

/// Every number written in decimal denotes that many units: `<n>ms` is `n`
/// milliseconds, `<n>s` and a bare `<n>` are `n` seconds, and `<n>m` is `60·n`
/// seconds (where that fits in 64 bits). Different numbers of one unit thus
/// denote the spans of different numbers.
pub proof fn law_duration_texts_denote_their_number(n: u64)
    ensures
        duration_of(decimal(n as nat) + seq!['m', 's']) == Some(millis_span(n)),
        duration_of(decimal(n as nat).push('s')) == Some(secs_span(n)),
        duration_of(decimal(n as nat)) == Some(secs_span(n)),
        n * 60 <= u64::MAX ==> duration_of(decimal(n as nat).push('m')) == Some(
            secs_span((n * 60) as u64),
        ),
{
    let d = decimal(n as nat);
    lemma_parse_decimal(n);
    let len = d.len() as int;

    let ms = d + seq!['m', 's'];
    assert(ms[0] == d[0]);
    assert(ms.last() == 's');
    lemma_trim_keeps_tight(ms);
    assert(ms.subrange(0, ms.len() - 2) =~= d);

    let sec = d.push('s');
    assert(sec[0] == d[0]);
    lemma_trim_keeps_tight(sec);
    assert(sec[sec.len() - 2] == d.last());
    assert(sec.subrange(0, sec.len() - 1) =~= d);

    lemma_trim_keeps_tight(d);
    assert(d[d.len() - 1] == d.last());

    let min = d.push('m');
    assert(min[0] == d[0]);
    lemma_trim_keeps_tight(min);
    assert(min.subrange(0, min.len() - 1) =~= d);
}

} // verus!
