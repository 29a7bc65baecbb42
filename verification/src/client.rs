//! What the HTTP client decides on its own: the target of a request, whether
//! a response body is read, and which failure a transport error amounts to.

use vstd::prelude::*;
use vstd::string::*;

use crate::config::{Headers, HttpMethod};
use crate::headers::{first_header_rejection, header_accepted};
use crate::text::{chars_of, contains, occurs_in};

verus! {

/// `hyper::Uri`, the parsed target of a request, held as an opaque value.
#[verifier::external_type_specification]
#[verifier::external_body]
pub struct ExUri(hyper::Uri);

/// One request to send.
pub struct RequestConfig {
    pub url: String,
    pub method: HttpMethod,
    pub headers: Headers,
    pub body: Option<String>,
}

/// A failed request.
#[derive(Debug)]
pub enum Error {
    /// A failure of the HTTP layer, with its text.
    Http(String),
    InvalidUrl(String),
    Timeout,
    TlsError(String),
    DnsError,
    ConnectionRefused,
    ConnectionReset,
    Other(String),
}

/// What an `Error` holds, as text.
pub enum Failure {
    Http(Seq<char>),
    InvalidUrl(Seq<char>),
    Timeout,
    TlsError(Seq<char>),
    DnsError,
    ConnectionRefused,
    ConnectionReset,
    Other(Seq<char>),
}

impl View for Error {
    type V = Failure;

    open spec fn view(&self) -> Failure {
        match self {
            Error::Http(s) => Failure::Http(s@),
            Error::InvalidUrl(s) => Failure::InvalidUrl(s@),
            Error::Timeout => Failure::Timeout,
            Error::TlsError(s) => Failure::TlsError(s@),
            Error::DnsError => Failure::DnsError,
            Error::ConnectionRefused => Failure::ConnectionRefused,
            Error::ConnectionReset => Failure::ConnectionReset,
            Error::Other(s) => Failure::Other(s@),
        }
    }
}

// ---------------------------------------------------------------------------
// The target of a request
// ---------------------------------------------------------------------------

/// What parsing `s` as a URI gives: the URI, or the text of the error.
pub uninterp spec fn parsed_uri(s: Seq<char>) -> Result<hyper::Uri, Seq<char>>;

/// Calls `str::parse::<hyper::Uri>` (`Uri::from_str` of the `http` crate) and
/// turns a rejection into its text: the outcome is the one named
/// `parsed_uri`, and an empty string is refused as `empty string`.
#[verifier::external_body]
fn parse_uri(s: &str) -> (r: Result<hyper::Uri, String>)
    ensures
        match r {
            Ok(u) => parsed_uri(s@) == Ok::<hyper::Uri, Seq<char>>(u),
            Err(m) => parsed_uri(s@) == Err::<hyper::Uri, Seq<char>>(m@),
        },
        s@.len() == 0 ==> (r is Err && r->Err_0@ == "empty string"@),
{
    match s.parse::<hyper::Uri>() {
        Ok(u) => Ok(u),
        Err(e) => Err(e.to_string()),
    }
}

/// Whether the body of a response to `m` is read: it is not for `HEAD`.
pub fn reads_body(m: HttpMethod) -> (b: bool)
    ensures
        b == (m != HttpMethod::Head),
{
    m != HttpMethod::Head
}

impl RequestConfig {
    /// The URI the request goes to (its URL parsed), or `InvalidUrl` with the
    /// parser's text; an empty URL is refused as `empty string`.
    pub fn uri(&self) -> (r: Result<hyper::Uri, Error>)
        ensures
            match parsed_uri(self.url@) {
                Ok(u) => r matches Ok(v) && v == u,
                Err(m) => r matches Err(e) && e@ == Failure::InvalidUrl(m),
            },
            self.url@.len() == 0 ==> (r matches Err(e) && e@ == Failure::InvalidUrl("empty string"@)),
    {
        match parse_uri(self.url.as_str()) {
            Ok(u) => Ok(u),
            Err(m) => Err(Error::InvalidUrl(m)),
        }
    }
}

impl RequestConfig {
    /// Checks the request before it is built, in the order the request builder
    /// goes: the URL must parse (else `InvalidUrl`), then every header name and
    /// value must be accepted (else `Http` with the first rejection's text).
    /// Gives the URI the request goes to.
    pub fn validate(&self) -> (r: Result<hyper::Uri, Error>)
        ensures
            match parsed_uri(self.url@) {
                Err(m) => r matches Err(e) && e@ == Failure::InvalidUrl(m),
                Ok(u) => match first_header_rejection(self.headers.pairs()) {
                    None => r matches Ok(v) && v == u,
                    Some(t) => r matches Err(e) && e@ == Failure::Http(t),
                },
            },
            r is Ok <==> (parsed_uri(self.url@) is Ok && forall|k: Seq<char>|
                #[trigger] self.headers@.contains_key(k) ==> header_accepted(
                    k,
                    self.headers@[k],
                )),
            r matches Err(Error::Http(m)) ==> (m@ == "invalid HTTP header name"@ || m@
                == "failed to parse header value"@),
    {
        let u = match self.uri() {
            Ok(u) => u,
            Err(e) => {
                return Err(e);
            },
        };
        match self.headers.first_rejection() {
            None => Ok(u),
            Some(t) => Err(Error::Http(t)),
        }
    }
}

// ---------------------------------------------------------------------------
// Classifying transport errors
// ---------------------------------------------------------------------------

/// The text of `s` in lower case, as `str::to_lowercase` gives it.
pub uninterp spec fn lowercase(s: Seq<char>) -> Seq<char>;

/// The ASCII lower case of `c`: `A`..`Z` become `a`..`z`, all else stays.
pub open spec fn ascii_lower(c: char) -> char {
    if 'A' <= c && c <= 'Z' {
        ((c as u32) + 32) as char
    } else {
        c
    }
}

/// Calls `str::to_lowercase`; the text it gives is the one named `lowercase`.
/// On ASCII text it lowers `A`..`Z` and keeps every other character.
#[verifier::external_body]
fn to_lowercase(s: &str) -> (r: String)
    ensures
        r@ == lowercase(s@),
        (forall|i: int| 0 <= i < s@.len() ==> (#[trigger] s@[i] as u32) < 128) ==> r@
            == s@.map_values(|c: char| ascii_lower(c)),
{
    s.to_lowercase()
}

/// The kind of an I/O failure, as far as classification tells them apart.
#[derive(Debug, Clone, Copy, PartialEq, Eq, Structural)]
pub enum IoKind {
    ConnectionRefused,
    ConnectionReset,
    TimedOut,
    Other,
}

/// One link in the chain of sources behind a failed request.
#[derive(Debug)]
pub enum ErrorCause {
    /// A TLS error, with its text.
    Tls(String),
    /// An I/O error, with its text and kind.
    Io(String, IoKind),
    /// Any other error.
    Opaque,
}

/// What an `ErrorCause` holds, as text.
pub enum Cause {
    Tls(Seq<char>),
    Io(Seq<char>, IoKind),
    Opaque,
}

impl View for ErrorCause {
    type V = Cause;

    open spec fn view(&self) -> Cause {
        match self {
            ErrorCause::Tls(s) => Cause::Tls(s@),
            ErrorCause::Io(s, k) => Cause::Io(s@, *k),
            ErrorCause::Opaque => Cause::Opaque,
        }
    }
}

/// The causes as text.
pub open spec fn causes_view(causes: Seq<ErrorCause>) -> Seq<Cause> {
    causes.map_values(|c: ErrorCause| c@)
}

/// An I/O error text (in lower case) that points at name resolution.
pub open spec fn mentions_dns(lower: Seq<char>) -> bool {
    ||| occurs_in("failed to lookup address information"@, lower)
    ||| occurs_in("name or service not known"@, lower)
    ||| occurs_in("dns"@, lower)
    ||| occurs_in("no such host"@, lower)
    ||| occurs_in("temporary failure in name resolution"@, lower)
}

/// The failure that a TLS or I/O cause amounts to.
pub open spec fn cause_failure(c: Cause) -> Failure {
    match c {
        Cause::Tls(m) => Failure::TlsError(m),
        Cause::Io(m, k) => if mentions_dns(lowercase(m)) {
            Failure::DnsError
        } else {
            match k {
                IoKind::ConnectionRefused => Failure::ConnectionRefused,
                IoKind::ConnectionReset => Failure::ConnectionReset,
                IoKind::TimedOut => Failure::Timeout,
                IoKind::Other => Failure::Other(m),
            }
        },
        Cause::Opaque => Failure::Other(Seq::empty()),
    }
}

/// The failure that an error with text `message` and sources `causes` (in
/// order, nearest first) amounts to: the first TLS or I/O source decides;
/// without one, the error's own text does.
pub open spec fn classification(causes: Seq<Cause>, message: Seq<char>) -> Failure
    decreases causes.len(),
{
    if causes.len() == 0 {
        let lower = lowercase(message);
        if occurs_in("connection reset"@, lower) {
            Failure::ConnectionReset
        } else if occurs_in("connection refused"@, lower) {
            Failure::ConnectionRefused
        } else {
            Failure::Http(message)
        }
    } else if causes[0] is Opaque {
        classification(causes.drop_first(), message)
    } else {
        cause_failure(causes[0])
    }
}

fn mentions_dns_exec(lower: &Vec<char>) -> (b: bool)
    ensures
        b == mentions_dns(lower@),
{
    contains(lower, &chars_of("failed to lookup address information")) || contains(
        lower,
        &chars_of("name or service not known"),
    ) || contains(lower, &chars_of("dns")) || contains(lower, &chars_of("no such host"))
        || contains(lower, &chars_of("temporary failure in name resolution"))
}

proof fn lemma_classification_step(causes: Seq<Cause>, message: Seq<char>, i: int)
    requires
        0 <= i < causes.len(),
        causes[i] is Opaque,
    ensures
        classification(causes.subrange(i, causes.len() as int), message) == classification(
            causes.subrange(i + 1, causes.len() as int),
            message,
        ),
{
    assert(causes.subrange(i, causes.len() as int).drop_first() =~= causes.subrange(
        i + 1,
        causes.len() as int,
    ));
}

/// Which failure a transport error amounts to, from the chain of its sources
/// (nearest first) and its own text.
pub fn classify_error(causes: &Vec<ErrorCause>, message: &str) -> (r: Error)
    ensures
        r@ == classification(causes_view(causes@), message@),
{
    let ghost cs = causes_view(causes@);
    let n = causes.len();
    let mut i: usize = 0;
    assert(cs.subrange(0, n as int) =~= cs);
    while i < n
        invariant
            n == causes@.len(),
            cs == causes_view(causes@),
            i <= n,
            classification(cs, message@) == classification(
                cs.subrange(i as int, n as int),
                message@,
            ),
        decreases n - i,
    {
        assert(cs[i as int] == causes@[i as int]@);
        match &causes[i] {
            ErrorCause::Tls(m) => {
                return Error::TlsError(m.clone());
            },
            ErrorCause::Io(m, kind) => {
                let lower = chars_of(to_lowercase(m.as_str()).as_str());
                if mentions_dns_exec(&lower) {
                    return Error::DnsError;
                }
                return match kind {
                    IoKind::ConnectionRefused => Error::ConnectionRefused,
                    IoKind::ConnectionReset => Error::ConnectionReset,
                    IoKind::TimedOut => Error::Timeout,
                    IoKind::Other => Error::Other(m.clone()),
                };
            },
            ErrorCause::Opaque => {
                proof {
                    lemma_classification_step(cs, message@, i as int);
                }
            },
        }
        i = i + 1;
    }
    assert(cs.subrange(n as int, n as int) =~= Seq::<Cause>::empty());
    let lower = chars_of(to_lowercase(message).as_str());
    if contains(&lower, &chars_of("connection reset")) {
        Error::ConnectionReset
    } else if contains(&lower, &chars_of("connection refused")) {
        Error::ConnectionRefused
    } else {
        Error::Http(message.to_owned())
    }
}

// ---------------------------------------------------------------------------
// After a request is sent
// ---------------------------------------------------------------------------

/// What sending a request came to.
pub enum Sent {
    /// No answer within the timeout.
    Elapsed,
    /// The transport failed: the sources of its error (nearest first) and the
    /// error's own text.
    Failed(Vec<ErrorCause>, String),
    /// A response with this status code arrived.
    Responded(u16),
}

/// What to do once a request is sent.
pub enum Next {
    /// The request is done, with this result: the status (if any) and the
    /// number of body bytes received.
    Finish(Result<(Option<u16>, usize), Error>),
    /// Read the body of the response that came with this status.
    ReadBody(u16),
}

/// The step after sending a request with method `method`: a timeout or a
/// transport failure ends it with an error; a response ends it at once for
/// `HEAD`, and otherwise its body is read first.
pub fn after_send(sent: Sent, method: HttpMethod) -> (r: Next)
    ensures
        match sent {
            Sent::Elapsed => r matches Next::Finish(Err(e)) && e@ == Failure::Timeout,
            Sent::Failed(causes, message) => r matches Next::Finish(Err(e)) && e@
                == classification(causes_view(causes@), message@),
            Sent::Responded(status) => if method == HttpMethod::Head {
                r matches Next::Finish(Ok(done)) && done == (Some(status), 0usize)
            } else {
                r matches Next::ReadBody(s) && s == status
            },
        },
{
    match sent {
        Sent::Elapsed => Next::Finish(Err(Error::Timeout)),
        Sent::Failed(causes, message) => Next::Finish(Err(classify_error(&causes, message.as_str()))),
        Sent::Responded(status) => {
            if reads_body(method) {
                Next::ReadBody(status)
            } else {
                Next::Finish(Ok((Some(status), 0)))
            }
        },
    }
}

/// The result of a request whose response had status `status` and whose body
/// came to `received` bytes; a body that could not be read counts no bytes.
pub fn after_body(status: u16, received: Option<usize>) -> (r: Result<(Option<u16>, usize), Error>)
    ensures
        r matches Ok(done) && done == (Some(status), match received {
            Some(n) => n,
            None => 0usize,
        }),
{
    match received {
        Some(n) => Ok((Some(status), n)),
        None => Ok((Some(status), 0)),
    }
}

// ---------------------------------------------------------------------------
// Laws
// ---------------------------------------------------------------------------

/// Sources that are neither TLS nor I/O errors do not change the outcome,
/// wherever they stand in the chain.
pub proof fn law_opaque_sources_ignored(causes: Seq<Cause>, message: Seq<char>, i: int)
    requires
        0 <= i <= causes.len(),
    ensures
        classification(causes.insert(i, Cause::Opaque), message) == classification(
            causes,
            message,
        ),
    decreases i,
{
    let c = causes.insert(i, Cause::Opaque);
    if i == 0 {
        assert(c.drop_first() =~= causes);
    } else {
        assert(c[0] == causes[0]);
        if causes[0] is Opaque {
            assert(c.drop_first() =~= causes.drop_first().insert(i - 1, Cause::Opaque));
            law_opaque_sources_ignored(causes.drop_first(), message, i - 1);
        }
    }
}

/// The nearest TLS or I/O source decides the outcome, whatever the sources
/// behind it and the error's own text are.
pub proof fn law_nearest_transport_source_decides(
    causes: Seq<Cause>,
    message: Seq<char>,
    i: int,
)
    requires
        0 <= i < causes.len(),
        !(causes[i] is Opaque),
        forall|j: int| 0 <= j < i ==> causes[j] is Opaque,
    ensures
        classification(causes, message) == cause_failure(causes[i]),
    decreases i,
{
    if i > 0 {
        assert(causes[0] is Opaque);
        let d = causes.drop_first();
        assert forall|j: int| 0 <= j < i - 1 implies d[j] is Opaque by {
            assert(d[j] == causes[j + 1]);
        }
        law_nearest_transport_source_decides(d, message, i - 1);
    }
}

/// An I/O source whose text names a failed name lookup is a DNS failure,
/// whatever kind of I/O error it is.
pub proof fn law_dns_text_overrides_kind(m: Seq<char>, k1: IoKind, k2: IoKind)
    requires
        mentions_dns(lowercase(m)),
    ensures
        cause_failure(Cause::Io(m, k1)) == Failure::DnsError,
        cause_failure(Cause::Io(m, k1)) == cause_failure(Cause::Io(m, k2)),
{
}

/// Without TLS or I/O sources, an error is a refused or reset connection only
/// when its text says so; otherwise it stays an HTTP failure with its text.
pub proof fn law_plain_errors_keep_their_text(causes: Seq<Cause>, message: Seq<char>)
    requires
        forall|j: int| 0 <= j < causes.len() ==> causes[j] is Opaque,
        !occurs_in("connection reset"@, lowercase(message)),
        !occurs_in("connection refused"@, lowercase(message)),
    ensures
        classification(causes, message) == Failure::Http(message),
    decreases causes.len(),
{
    if causes.len() > 0 {
        let d = causes.drop_first();
        assert forall|j: int| 0 <= j < d.len() implies d[j] is Opaque by {
            assert(d[j] == causes[j + 1]);
        }
        law_plain_errors_keep_their_text(d, message);
    }
}

/// An I/O source whose lower-cased text holds any of the five name-lookup
/// phrases is a DNS failure, whatever its I/O kind; as the nearest transport
/// source it makes the whole error a DNS failure.
pub proof fn law_dns_phrases_give_dns_error(m: Seq<char>, k: IoKind, message: Seq<char>)
    requires
        occurs_in("failed to lookup address information"@, lowercase(m))
            || occurs_in("name or service not known"@, lowercase(m)) || occurs_in(
            "dns"@,
            lowercase(m),
        ) || occurs_in("no such host"@, lowercase(m)) || occurs_in(
            "temporary failure in name resolution"@,
            lowercase(m),
        ),
    ensures
        cause_failure(Cause::Io(m, k)) == Failure::DnsError,
        classification(seq![Cause::Io(m, k)], message) == Failure::DnsError,
        classification(seq![Cause::Opaque, Cause::Io(m, k)], message) == Failure::DnsError,
{
    assert(seq![Cause::Opaque, Cause::Io(m, k)].drop_first() =~= seq![Cause::Io(m, k)]);
}

/// An I/O source whose text names no failed lookup is classified by its kind:
/// refused, reset and timed out map to their failures, and any other kind
/// keeps the source's own text.
pub proof fn law_io_kind_decides_without_dns(m: Seq<char>, k: IoKind)
    requires
        !occurs_in("failed to lookup address information"@, lowercase(m)),
        !occurs_in("name or service not known"@, lowercase(m)),
        !occurs_in("dns"@, lowercase(m)),
        !occurs_in("no such host"@, lowercase(m)),
        !occurs_in("temporary failure in name resolution"@, lowercase(m)),
    ensures
        k == IoKind::ConnectionRefused ==> cause_failure(Cause::Io(m, k))
            == Failure::ConnectionRefused,
        k == IoKind::ConnectionReset ==> cause_failure(Cause::Io(m, k))
            == Failure::ConnectionReset,
        k == IoKind::TimedOut ==> cause_failure(Cause::Io(m, k)) == Failure::Timeout,
        k == IoKind::Other ==> cause_failure(Cause::Io(m, k)) == Failure::Other(m),
{
}

/// A TLS source gives a TLS failure with its own text.
pub proof fn law_tls_source_keeps_its_text(m: Seq<char>, message: Seq<char>)
    ensures
        classification(seq![Cause::Tls(m)], message) == Failure::TlsError(m),
{
}

/// Without transport sources, an error whose lower-cased text says
/// `connection reset` is a reset connection, and one that says `connection
/// refused` (and not reset) is a refused connection.
pub proof fn law_error_text_names_reset_or_refused(causes: Seq<Cause>, message: Seq<char>)
    requires
        forall|j: int| 0 <= j < causes.len() ==> causes[j] is Opaque,
    ensures
        occurs_in("connection reset"@, lowercase(message)) ==> classification(causes, message)
            == Failure::ConnectionReset,
        !occurs_in("connection reset"@, lowercase(message)) && occurs_in(
            "connection refused"@,
            lowercase(message),
        ) ==> classification(causes, message) == Failure::ConnectionRefused,
    decreases causes.len(),
{
    if causes.len() > 0 {
        let d = causes.drop_first();
        assert forall|j: int| 0 <= j < d.len() implies d[j] is Opaque by {
            assert(d[j] == causes[j + 1]);
        }
        law_error_text_names_reset_or_refused(d, message);
    }
}

} // verus!
