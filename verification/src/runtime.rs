//! Decisions of the client runtime and the server session: how a failed
//! upstream open is answered on each front end, how error chains are shown,
//! the runtime logger, and first-read observation during relay.

use vstd::prelude::*;

use crate::proto::{
    lemma_response_roundtrip, parse_response, response_bytes, ConnectResponse, StatusCode, WireError,
};
use crate::socks5::{map_upstream_status_to_socks, socks_code_for_status};
use crate::text::{chars_of, contains_chars, contains_text, push_chars, string_of};

verus! {

#[verifier::external_type_specification]
#[verifier::external_body]
pub struct ExAnyhowError(anyhow::Error);

/// Why the upstream stream could not be opened.
pub enum OpenStreamError {
    /// Connecting or the TLS handshake failed.
    Connect(anyhow::Error),
    /// The connect timeout elapsed.
    Timeout(anyhow::Error),
    /// The server's response could not be read.
    ResponseRead(anyhow::Error),
    /// The server answered with a status other than success.
    Refused(StatusCode),
}

/// The server's response decides whether the stream is usable: only a
/// success status is; any other is a refusal carrying that status.
pub fn check_upstream_response(response: &ConnectResponse) -> (r: Result<(), OpenStreamError>)
    ensures
        r is Ok <==> response.status == StatusCode::Success,
        r matches Err(e) ==> e == OpenStreamError::Refused(response.status),
{
    match response.status {
        StatusCode::Success => Ok(()),
        status => Err(OpenStreamError::Refused(status)),
    }
}

/// The SOCKS5 reply code the front end sends for each open failure.
pub open spec fn socks_code_for_open_error(e: OpenStreamError) -> u8 {
    match e {
        OpenStreamError::Connect(_) => 0x01,
        OpenStreamError::Timeout(_) => 0x04,
        OpenStreamError::ResponseRead(_) => 0x01,
        OpenStreamError::Refused(s) => socks_code_for_status(s),
    }
}

pub fn socks_reply_code_for(e: &OpenStreamError) -> (r: u8)
    ensures
        r == socks_code_for_open_error(*e),
{
    match e {
        OpenStreamError::Connect(_) => 0x01,
        OpenStreamError::Timeout(_) => 0x04,
        OpenStreamError::ResponseRead(_) => 0x01,
        OpenStreamError::Refused(s) => map_upstream_status_to_socks(*s),
    }
}

/// The status the ingress front end answers with for each open failure: a
/// refusal passes the server's status through.
pub open spec fn ingress_status_for_open_error(e: OpenStreamError) -> StatusCode {
    match e {
        OpenStreamError::Connect(_) => StatusCode::InternalError,
        OpenStreamError::Timeout(_) => StatusCode::Timeout,
        OpenStreamError::ResponseRead(_) => StatusCode::InternalError,
        OpenStreamError::Refused(s) => s,
    }
}

pub fn ingress_status_for(e: &OpenStreamError) -> (r: StatusCode)
    ensures
        r == ingress_status_for_open_error(*e),
{
    match e {
        OpenStreamError::Connect(_) => StatusCode::InternalError,
        OpenStreamError::Timeout(_) => StatusCode::Timeout,
        OpenStreamError::ResponseRead(_) => StatusCode::InternalError,
        OpenStreamError::Refused(s) => *s,
    }
}

/// A refusal is always answered as a failure on both front ends: the status
/// it carries is never success, so neither the SOCKS code nor the ingress
/// status reads as success.
pub proof fn lemma_open_failure_never_success(response: ConnectResponse)
    requires
        response.status != StatusCode::Success,
    ensures
        socks_code_for_open_error(OpenStreamError::Refused(response.status)) != 0,
        ingress_status_for_open_error(OpenStreamError::Refused(response.status))
            != StatusCode::Success,
{
}

/// A refusal is passed on as the server sent it, whatever its status: the
/// ingress front end answers with the server's own status, and the SOCKS5
/// front end with the code that status has for the SOCKS5 client. A refusal
/// because the server timed out is answered on both front ends as a local
/// timeout is.
pub proof fn lemma_refusal_passed_on(s: StatusCode, local: anyhow::Error)
    ensures
        ingress_status_for_open_error(OpenStreamError::Refused(s)) == s,
        socks_code_for_open_error(OpenStreamError::Refused(s)) == socks_code_for_status(s),
        socks_code_for_open_error(OpenStreamError::Refused(StatusCode::Timeout))
            == socks_code_for_open_error(OpenStreamError::Timeout(local)),
        ingress_status_for_open_error(OpenStreamError::Refused(StatusCode::Timeout))
            == ingress_status_for_open_error(OpenStreamError::Timeout(local)),
{
}

/// The status the ingress front end answers a refused request with is the
/// one the server wrote: reading the server's response bytes and passing the
/// refusal on gives back the server's status for every outcome but success.
pub proof fn lemma_ingress_echoes_server(o: TargetOutcome, rest: Seq<u8>)
    requires
        o != TargetOutcome::Connected,
    ensures
        ({
            let written = ConnectResponse { status: server_status(o), reason: 0 };
            let read = parse_response(response_bytes(written) + rest)->Ok_0.1;
            &&& parse_response(response_bytes(written) + rest) is Ok
            &&& ingress_status_for_open_error(OpenStreamError::Refused(read.status)) == server_status(o)
            &&& read.status != StatusCode::Success
        }),
{
    lemma_response_roundtrip(ConnectResponse { status: server_status(o), reason: 0 }, rest);
}

/// How the server's attempt to reach the target ended.
#[derive(Clone, Copy, Debug, PartialEq, Eq, Structural)]
pub enum TargetOutcome {
    /// The first packet could not be read.
    BadRequest,
    Connected,
    ConnectFailed,
    TimedOut,
}

/// The status the server answers with.
pub open spec fn server_status(o: TargetOutcome) -> StatusCode {
    match o {
        TargetOutcome::BadRequest => StatusCode::BadRequest,
        TargetOutcome::Connected => StatusCode::Success,
        TargetOutcome::ConnectFailed => StatusCode::TargetConnectFailed,
        TargetOutcome::TimedOut => StatusCode::Timeout,
    }
}

/// The response the server writes for an outcome; the reason is always zero.
pub fn server_response(o: TargetOutcome) -> (r: ConnectResponse)
    ensures
        r == (ConnectResponse { status: server_status(o), reason: 0 }),
{
    let status = match o {
        TargetOutcome::BadRequest => StatusCode::BadRequest,
        TargetOutcome::Connected => StatusCode::Success,
        TargetOutcome::ConnectFailed => StatusCode::TargetConnectFailed,
        TargetOutcome::TimedOut => StatusCode::Timeout,
    };
    ConnectResponse { status, reason: 0 }
}

/// What the server answers is what the client reads back, and the client
/// opens the stream exactly when the server reached the target: the four
/// response bytes parse to the server's status with reason zero, and that
/// status is success only for a connected target.
pub proof fn lemma_server_answer_seen_by_client(o: TargetOutcome, rest: Seq<u8>)
    ensures
        parse_response(response_bytes(ConnectResponse { status: server_status(o), reason: 0 })
            + rest) == Ok::<(int, ConnectResponse), WireError>(
            (4, ConnectResponse { status: server_status(o), reason: 0 }),
        ),
        (server_status(o) == StatusCode::Success) <==> (o == TargetOutcome::Connected),
{
    lemma_response_roundtrip(ConnectResponse { status: server_status(o), reason: 0 }, rest);
}

/// The texts of an error's cause chain, outermost first, as
/// `anyhow::Error::chain` visits the causes and their `Display` writes them.
pub uninterp spec fn chain_texts(error: anyhow::Error) -> Seq<Seq<char>>;

/// The messages of an error's cause chain, outermost first, through
/// `anyhow::Error::chain`, each turned to text by its `Display`.
/// The contract claims that the messages are the error's chain texts, and what
/// anyhow documents of the chain: it begins with the error itself, so there is
/// at least one message.
#[verifier::external_body]
fn error_chain_messages(error: &anyhow::Error) -> (r: Vec<String>)
    ensures
        string_texts(r@) == chain_texts(*error),
        r@.len() >= 1,
{
    error.chain().map(|cause| cause.to_string()).collect()
}

/// The texts of a list of strings.
pub open spec fn string_texts(v: Seq<String>) -> Seq<Seq<char>> {
    Seq::new(v.len(), |i: int| v[i]@)
}

/// The texts joined with `sep` between neighbours.
pub open spec fn join(parts: Seq<Seq<char>>, sep: Seq<char>) -> Seq<char>
    decreases parts.len(),
{
    if parts.len() == 0 {
        Seq::empty()
    } else if parts.len() == 1 {
        parts[0]
    } else {
        join(parts.drop_last(), sep) + sep + parts.last()
    }
}

/// Joins messages with ": ".
pub fn join_messages(messages: &Vec<String>) -> (r: String)
    ensures
        r@ == join(string_texts(messages@), seq![':', ' ']),
{
    let ghost t = string_texts(messages@);
    let mut out: Vec<char> = Vec::new();
    let mut i: usize = 0;
    while i < messages.len()
        invariant
            i <= messages@.len(),
            t == string_texts(messages@),
            out@ == join(t.subrange(0, i as int), seq![':', ' ']),
        decreases messages@.len() - i,
    {
        let ghost next = t.subrange(0, i as int + 1);
        assert(next.drop_last() =~= t.subrange(0, i as int));
        if i > 0 {
            out.push(':');
            out.push(' ');
        } else {
            assert(t.subrange(0, 0) =~= Seq::<Seq<char>>::empty());
        }
        let cs = chars_of(messages[i].as_str());
        push_chars(&mut out, cs.as_slice());
        i = i + 1;
        assert(out@ =~= join(next, seq![':', ' ']));
    }
    assert(t.subrange(0, i as int) =~= t);
    string_of(out.as_slice())
}

/// The whole cause chain of an error on one line, messages joined with ": ".
pub fn format_error_chain(error: &anyhow::Error) -> (r: String)
    ensures
        r@ == join(chain_texts(*error), seq![':', ' ']),
        chain_texts(*error).len() >= 1,
{
    let messages = error_chain_messages(error);
    join_messages(&messages)
}

/// Text of the SOCKS5 error for a request that is not a CONNECT.
pub open spec fn only_connect_text() -> Seq<char> {
    seq![
        'o', 'n', 'l', 'y', ' ', 'C', 'O', 'N', 'N', 'E', 'C', 'T', ' ', 'i', 's', ' ', 's', 'u',
        'p', 'p', 'o', 'r', 't', 'e', 'd',
    ]
}

/// A session failure is shown to the user unless some message of its chain
/// says that only CONNECT is supported (clients probing other commands are
/// not worth a log line).
pub open spec fn surfaces(messages: Seq<Seq<char>>) -> bool {
    forall|i: int| 0 <= i < messages.len() ==> !contains_text(#[trigger] messages[i], only_connect_text())
}

pub fn should_surface_messages(messages: &Vec<String>) -> (r: bool)
    ensures
        r == surfaces(string_texts(messages@)),
{
    let needle = vec![
        'o', 'n', 'l', 'y', ' ', 'C', 'O', 'N', 'N', 'E', 'C', 'T', ' ', 'i', 's', ' ', 's', 'u',
        'p', 'p', 'o', 'r', 't', 'e', 'd',
    ];
    assert(needle@ =~= only_connect_text());
    let ghost t = string_texts(messages@);
    let mut i: usize = 0;
    while i < messages.len()
        invariant
            i <= messages@.len(),
            t == string_texts(messages@),
            needle@ == only_connect_text(),
            forall|j: int| 0 <= j < i ==> !contains_text(#[trigger] t[j], only_connect_text()),
        decreases messages@.len() - i,
    {
        let cs = chars_of(messages[i].as_str());
        if contains_chars(cs.as_slice(), needle.as_slice()) {
            assert(t[i as int] == messages@[i as int]@);
            return false;
        }
        i = i + 1;
    }
    true
}

pub fn should_surface_client_error(error: &anyhow::Error) -> (r: bool)
    ensures
        r == surfaces(chain_texts(*error)),
{
    let messages = error_chain_messages(error);
    should_surface_messages(&messages)
}

/// Forwards runtime messages to an optional sink (the control panel's log).
#[derive(Clone)]
pub struct RuntimeLogger<F> {
    sink: Option<F>,
}

impl<F: Fn(String)> RuntimeLogger<F> {
    /// The sink messages go to, if any.
    pub closed spec fn sink(&self) -> Option<F> {
        self.sink
    }

    pub fn new(sink: Option<F>) -> (r: Self)
        ensures
            r.sink() == sink,
    {
        Self { sink }
    }

    /// Hands `message`, turned into a `String`, to the sink, if there is one;
    /// without a sink it is dropped.
    pub fn log<S: Into<String>>(&self, message: S)
        requires
            self.sink() matches Some(f) ==> forall|m: String| call_requires(f, (m,)),
        ensures
            self.sink() matches Some(f) ==> exists|m: String|
                call_ensures(<S as Into<String>>::into, (message,), m) && call_ensures(f, (m,), ()),
    {
        let message: String = message.into();
        if let Some(sink) = &self.sink {
            sink(message);
        }
    }
}

/// Which direction of a relay a read came from.
#[derive(Clone, Copy, Debug, PartialEq, Eq, Structural)]
pub enum RelayReadSide {
    Inbound,
    Upstream,
}

impl RelayReadSide {
    /// The log line for the first bytes read on this side.
    pub fn message(self) -> (r: &'static str)
        ensures
            self == RelayReadSide::Inbound ==> r@ == "ingress relay 首次收到来自本地 helper 的字节"@,
            self == RelayReadSide::Upstream ==> r@ == "ingress relay 首次收到来自上游的字节"@,
    {
        match self {
            RelayReadSide::Inbound => "ingress relay 首次收到来自本地 helper 的字节",
            RelayReadSide::Upstream => "ingress relay 首次收到来自上游的字节",
        }
    }

    /// The side's name in trace records.
    pub fn tracing_side(self) -> (r: &'static str)
        ensures
            self == RelayReadSide::Inbound ==> r@ == "from_helper"@,
            self == RelayReadSide::Upstream ==> r@ == "from_upstream"@,
    {
        match self {
            RelayReadSide::Inbound => "from_helper",
            RelayReadSide::Upstream => "from_upstream",
        }
    }
}

/// One read seen by an observer that has (`logged`) or has not yet reported:
/// what it reports, and whether it has reported afterwards. The read filled
/// the buffer from `before` to `after` bytes.
pub open spec fn observe_step(logged: bool, before: usize, after: usize) -> (Option<usize>, bool) {
    if !logged && after > before {
        (Some((after - before) as usize), true)
    } else {
        (None, logged || after > before)
    }
}

/// The reports of an observer over a sequence of reads, each given by the
/// fill levels before and after it.
pub open spec fn observed_reports(logged: bool, reads: Seq<(usize, usize)>) -> Seq<Option<usize>>
    decreases reads.len(),
{
    if reads.len() == 0 {
        Seq::empty()
    } else {
        let step = observe_step(logged, reads[0].0, reads[0].1);
        seq![step.0] + observed_reports(step.1, reads.drop_first())
    }
}

/// Watches the reads of one side of a relay and reports the first one that
/// delivers bytes, once.
pub struct FirstReadObserver {
    pub logged: bool,
}

impl FirstReadObserver {
    pub fn new() -> (r: Self)
        ensures
            !r.logged,
    {
        FirstReadObserver { logged: false }
    }

    /// A completed read filled the buffer from `filled_before` to
    /// `filled_after` bytes. Returns the byte count to report when this is
    /// the first read with bytes; after that, nothing is reported again.
    pub fn observe(&mut self, filled_before: usize, filled_after: usize) -> (r: Option<usize>)
        ensures
            (r, final(self).logged) == observe_step(old(self).logged, filled_before, filled_after),
    {
        let bytes = filled_after.saturating_sub(filled_before);
        if !self.logged && bytes > 0 {
            self.logged = true;
            Some(bytes)
        } else {
            None
        }
    }
}

/// A fresh observer reports exactly one read over any sequence of reads in
/// which some read delivers bytes, and none otherwise: the first read that
/// delivers bytes, with its byte count.
pub proof fn lemma_first_read_reported_once(reads: Seq<(usize, usize)>)
    ensures
        observed_reports(false, reads).len() == reads.len(),
        forall|i: int, j: int|
            0 <= i < j < reads.len() ==> !(#[trigger] observed_reports(false, reads)[i] is Some
                && #[trigger] observed_reports(false, reads)[j] is Some),
        forall|i: int|
            0 <= i < reads.len() ==> (#[trigger] observed_reports(false, reads)[i] is Some <==> (
            reads[i].1 > reads[i].0 && forall|k: int| 0 <= k < i ==> reads[k].1 <= reads[k].0)),
        forall|i: int|
            0 <= i < reads.len() && #[trigger] observed_reports(false, reads)[i] is Some ==>
                observed_reports(false, reads)[i] == Some((reads[i].1 - reads[i].0) as usize),
    decreases reads.len(),
{
    lemma_observed_after_report(reads);
}

/// Reports of an observer that has already reported: none.
proof fn lemma_logged_reports_nothing(reads: Seq<(usize, usize)>)
    ensures
        observed_reports(true, reads).len() == reads.len(),
        forall|i: int| 0 <= i < reads.len() ==> #[trigger] observed_reports(true, reads)[i] is None,
    decreases reads.len(),
{
    if reads.len() > 0 {
        lemma_logged_reports_nothing(reads.drop_first());
        let r = observed_reports(true, reads);
        assert forall|i: int| 0 <= i < reads.len() implies #[trigger] r[i] is None by {
            if i > 0 {
                assert(r[i] == observed_reports(true, reads.drop_first())[i - 1]);
            }
        }
    }
}

proof fn lemma_observed_after_report(reads: Seq<(usize, usize)>)
    ensures
        observed_reports(false, reads).len() == reads.len(),
        forall|i: int|
            0 <= i < reads.len() ==> (#[trigger] observed_reports(false, reads)[i] is Some <==> (
            reads[i].1 > reads[i].0 && forall|k: int| 0 <= k < i ==> reads[k].1 <= reads[k].0)),
        forall|i: int|
            0 <= i < reads.len() && #[trigger] observed_reports(false, reads)[i] is Some ==>
                observed_reports(false, reads)[i] == Some((reads[i].1 - reads[i].0) as usize),
    decreases reads.len(),
{
    if reads.len() > 0 {
        let rest = reads.drop_first();
        let r = observed_reports(false, reads);
        if reads[0].1 > reads[0].0 {
            lemma_logged_reports_nothing(rest);
            assert forall|i: int| 0 <= i < reads.len() implies (#[trigger] r[i] is Some <==> (
            reads[i].1 > reads[i].0 && forall|k: int| 0 <= k < i ==> reads[k].1 <= reads[k].0)) by {
                if i > 0 {
                    assert(r[i] == observed_reports(true, rest)[i - 1]);
                    assert(!(forall|k: int| 0 <= k < i ==> reads[k].1 <= reads[k].0)) by {
                        assert(reads[0].1 > reads[0].0);
                    }
                }
            }
            assert forall|i: int|
                0 <= i < reads.len() && #[trigger] r[i] is Some implies r[i] == Some(
                (reads[i].1 - reads[i].0) as usize,
            ) by {
                if i > 0 {
                    assert(r[i] == observed_reports(true, rest)[i - 1]);
                }
            }
        } else {
            lemma_observed_after_report(rest);
            assert forall|i: int| 0 <= i < reads.len() implies (#[trigger] r[i] is Some <==> (
            reads[i].1 > reads[i].0 && forall|k: int| 0 <= k < i ==> reads[k].1 <= reads[k].0)) by {
                if i > 0 {
                    assert(r[i] == observed_reports(false, rest)[i - 1]);
                    assert(rest[i - 1] == reads[i]);
                    let before_all = forall|k: int| 0 <= k < i ==> reads[k].1 <= reads[k].0;
                    let before_rest = forall|k: int| 0 <= k < i - 1 ==> rest[k].1 <= rest[k].0;
                    if before_all {
                        assert forall|k: int| 0 <= k < i - 1 implies rest[k].1 <= rest[k].0 by {
                            assert(rest[k] == reads[k + 1]);
                        }
                    }
                    if before_rest {
                        assert forall|k: int| 0 <= k < i implies reads[k].1 <= reads[k].0 by {
                            if k > 0 {
                                assert(rest[k - 1] == reads[k]);
                            }
                        }
                    }
                    assert(before_all == before_rest);
                }
            }
            assert forall|i: int|
                0 <= i < reads.len() && #[trigger] r[i] is Some implies r[i] == Some(
                (reads[i].1 - reads[i].0) as usize,
            ) by {
                if i > 0 {
                    assert(r[i] == observed_reports(false, rest)[i - 1]);
                    assert(rest[i - 1] == reads[i]);
                }
            }
        }
    }
}

} // verus!
