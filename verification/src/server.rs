//! Server configuration and the decisions of the connection loop: which timeout applies,
//! whether the connection is kept alive, and when serving stops.
use vstd::prelude::*;
use vstd::string::StringSliceAdditionalSpecFns;

use crate::request::{eq_ignore_ascii_case, header_lookup, split_bytes, trim_ascii, Headers};
use crate::time::{lemma_equal_millis_are_equal, Duration, TimeoutError};

verus! {

/// Errors arising while handling a request.
#[derive(Debug, PartialEq, Eq, Structural)]
pub enum Error<E> {
    /// Bad Request from the client
    BadRequest,
    /// Error while reading from the socket.
    Read(E),
    /// Timeout while reading from the socket.
    ReadTimeout(TimeoutError),
    /// Error while writing to the socket.
    Write(E),
    /// Timeout while writing to the socket.
    WriteTimeout(TimeoutError),
}

/// How long to wait before timing out for different operations.
/// If set to None, the operation never times out.
#[derive(Debug, Clone, Copy, PartialEq, Eq, Structural)]
pub struct Timeouts {
    /// The duration of time to wait when starting to read the first request before the connection is closed due to inactivity.
    pub start_read_request: Option<Duration>,
    /// The duration of time to wait when starting to read persistent (i.e. not the first) requests before the connection is closed due to inactivity.
    pub persistent_start_read_request: Option<Duration>,
    /// The duration of time to wait when partway reading a request before the connection is aborted and closed.
    pub read_request: Option<Duration>,
    /// The duration of time to wait when writing the response before the connection is aborted and closed.
    pub write: Option<Duration>,
}

/// Whether `t` holds the default timeouts: 5 s to start the first request, 1 s to start
/// later requests, 3 s to read a request and 1 s to write a response.
pub open spec fn is_default_timeouts(t: Timeouts) -> bool {
    &&& t.start_read_request matches Some(d) && d.millis() == 5000
    &&& t.persistent_start_read_request matches Some(d) && d.millis() == 1000
    &&& t.read_request matches Some(d) && d.millis() == 3000
    &&& t.write matches Some(d) && d.millis() == 1000
}

/// There is one set of default timeouts: any two are equal, so `Timeouts::const_default()`,
/// `Timeouts::default()` and the timeouts of `Config::const_default()` are the same value,
/// and the same as timeouts built with `Duration::from_secs(5)`, `(1)`, `(3)` and `(1)`.
pub proof fn lemma_default_timeouts_are_equal(a: Timeouts, b: Timeouts)
    requires
        is_default_timeouts(a),
        is_default_timeouts(b),
    ensures
        a == b,
{
    lemma_equal_millis_are_equal(a.start_read_request->0, b.start_read_request->0);
    lemma_equal_millis_are_equal(
        a.persistent_start_read_request->0,
        b.persistent_start_read_request->0,
    );
    lemma_equal_millis_are_equal(a.read_request->0, b.read_request->0);
    lemma_equal_millis_are_equal(a.write->0, b.write->0);
}

impl Timeouts {
    /// The default timeouts: 5 s to start the first request, 1 s to start later requests,
    /// 3 s to read a request and 1 s to write a response.
    pub fn const_default() -> (r: Self)
        ensures
            is_default_timeouts(r),
    {
        Timeouts {
            start_read_request: Some(Duration::from_secs(5)),
            persistent_start_read_request: Some(Duration::from_secs(1)),
            read_request: Some(Duration::from_secs(3)),
            write: Some(Duration::from_secs(1)),
        }
    }
}

impl Default for Timeouts {
    fn default() -> (r: Self)
        ensures
            is_default_timeouts(r),
    {
        Timeouts::const_default()
    }
}

/// After the response has been sent, should the connection be kept open to allow the client to make further requests on the same TCP connection?
#[derive(Debug, Clone, Copy, PartialEq, Eq, Structural)]
pub enum KeepAlive {
    /// Close the connection after the response has been sent, i.e. each TCP connection serves a single request.
    Close,
    /// Keep the connection alive after the response has been sent, allowing the client to make further requests on the same TCP connection.
    KeepAlive,
}

/// Whether the HTTP version text is exactly `HTTP/1.1`.
pub open spec fn is_http_1_1(http_version: Seq<u8>) -> bool {
    http_version == "HTTP/1.1".spec_bytes()
}

/// The connection behaviour a request asks for: a `Connection` header of `close`, or one
/// whose comma separated tokens include `upgrade`, closes the connection; otherwise HTTP/1.1
/// keeps it alive and other versions close it.
pub open spec fn keep_alive_for(http_version: Seq<u8>, headers: Seq<(Seq<u8>, Seq<u8>)>) -> KeepAlive {
    let default = if is_http_1_1(http_version) {
        KeepAlive::KeepAlive
    } else {
        KeepAlive::Close
    };
    match header_lookup(headers, "connection".spec_bytes()) {
        None => default,
        Some(v) => if eq_ignore_ascii_case(v, "close".spec_bytes()) {
            KeepAlive::Close
        } else if exists|i: int|
            0 <= i < split_bytes(v, 0x2C).len() && eq_ignore_ascii_case(
                trim_ascii(#[trigger] split_bytes(v, 0x2C)[i]),
                "upgrade".spec_bytes(),
            ) {
            KeepAlive::Close
        } else {
            default
        },
    }
}

fn bytes_equal(a: &[u8], b: &[u8]) -> (r: bool)
    ensures
        r == (a@ == b@),
{
    if a.len() != b.len() {
        return false;
    }
    let mut i: usize = 0;
    while i < a.len()
        invariant
            a@.len() == b@.len(),
            i <= a@.len(),
            forall|k: int| 0 <= k < i ==> a@[k] == b@[k],
        decreases a.len() - i,
    {
        if a[i] != b[i] {
            return false;
        }
        i = i + 1;
    }
    assert(a@ =~= b@);
    true
}

impl KeepAlive {
    /// The default: close the connection.
    pub fn const_default() -> (r: Self)
        ensures
            r == KeepAlive::Close,
    {
        KeepAlive::Close
    }

    /// The header value that announces this behaviour.
    pub fn header_value(&self) -> (r: &'static str)
        ensures
            r@ == match self {
                KeepAlive::Close => "close"@,
                KeepAlive::KeepAlive => "keep-alive"@,
            },
    {
        match self {
            KeepAlive::Close => "close",
            KeepAlive::KeepAlive => "keep-alive",
        }
    }

    /// HTTP/1.1 keeps connections alive by default; other versions close them.
    pub fn default_for_http_version(http_version: &str) -> (r: Self)
        ensures
            r == if is_http_1_1(http_version.spec_bytes()) {
                KeepAlive::KeepAlive
            } else {
                KeepAlive::Close
            },
    {
        if bytes_equal(http_version.as_bytes(), "HTTP/1.1".as_bytes()) {
            KeepAlive::KeepAlive
        } else {
            KeepAlive::Close
        }
    }

    /// The connection behaviour the request asks for.
    pub fn from_request(http_version: &str, headers: &Headers) -> (r: Self)
        ensures
            r == keep_alive_for(http_version.spec_bytes(), headers@),
    {
        match headers.get("connection") {
            None => Self::default_for_http_version(http_version),
            Some(value) => {
                if value.eq_str("close") {
                    return KeepAlive::Close;
                }
                let tokens = value.split_commas();
                let ghost pieces = split_bytes(value@, 0x2C);
                let mut i: usize = 0;
                while i < tokens.len()
                    invariant
                        i <= tokens@.len(),
                        header_lookup(headers@, "connection".spec_bytes()) == Some(value@),
                        !eq_ignore_ascii_case(value@, "close".spec_bytes()),
                        tokens@.len() == pieces.len(),
                        pieces == split_bytes(value@, 0x2C),
                        forall|k: int| 0 <= k < tokens@.len() ==> #[trigger] tokens@[k]@ == trim_ascii(pieces[k]),
                        forall|k: int|
                            0 <= k < i ==> !eq_ignore_ascii_case(
                                trim_ascii(#[trigger] pieces[k]),
                                "upgrade".spec_bytes(),
                            ),
                    decreases tokens@.len() - i,
                {
                    if tokens[i].eq_str("upgrade") {
                        assert(eq_ignore_ascii_case(trim_ascii(split_bytes(value@, 0x2C)[i as int]), "upgrade".spec_bytes()));
                        return KeepAlive::Close;
                    }
                    i = i + 1;
                }
                Self::default_for_http_version(http_version)
            },
        }
    }
}

/// Server Configuration.
#[derive(Debug, Clone, Copy, PartialEq, Eq, Structural)]
pub struct Config {
    /// The timeout information
    pub timeouts: Timeouts,
    /// Whether to close the connection after handling a request or keeping it open to allow further requests on the same connection.
    pub connection: KeepAlive,
}

impl Config {
    /// Create a new configuration, setting the timeouts.
    /// All other configuration is set to the defaults.
    pub fn new(timeouts: Timeouts) -> (r: Self)
        ensures
            r.timeouts == timeouts,
            r.connection == KeepAlive::Close,
    {
        Config { timeouts, connection: KeepAlive::Close }
    }

    /// The default configuration.
    pub fn const_default() -> (r: Self)
        ensures
            is_default_timeouts(r.timeouts),
            r.connection == KeepAlive::Close,
    {
        Config { timeouts: Timeouts::const_default(), connection: KeepAlive::const_default() }
    }

    /// Keep the connection alive after the response has been sent.
    pub fn keep_connection_alive(self) -> (r: Self)
        ensures
            r.timeouts == self.timeouts,
            r.connection == KeepAlive::KeepAlive,
    {
        Config { timeouts: self.timeouts, connection: KeepAlive::KeepAlive }
    }

    /// Close the connection after the response has been sent.
    pub fn close_connection_after_response(self) -> (r: Self)
        ensures
            r.timeouts == self.timeouts,
            r.connection == KeepAlive::Close,
    {
        Config { timeouts: self.timeouts, connection: KeepAlive::Close }
    }
}

impl Default for Config {
    fn default() -> (r: Self)
        ensures
            is_default_timeouts(r.timeouts),
            r.connection == KeepAlive::Close,
    {
        Config::const_default()
    }
}

/// Information gathered once a server has disconnected.
#[derive(Debug, PartialEq, Eq, Structural)]
pub struct DisconnectionInfo<S> {
    /// How many requests were handled.
    pub handled_requests_count: u64,
    /// The shutdown reason, if the server shut down gracefully.
    pub shutdown_reason: Option<S>,
}

impl<S> DisconnectionInfo<S> {
    /// The connection ended without a shutdown.
    pub fn no_shutdown_reason(handled_requests_count: u64) -> (r: Self)
        ensures
            r.handled_requests_count == handled_requests_count,
            r.shutdown_reason is None,
    {
        DisconnectionInfo { handled_requests_count, shutdown_reason: None }
    }

    /// The connection ended because the server shut down.
    pub fn with_shutdown_reason(handled_requests_count: u64, shutdown_reason: S) -> (r: Self)
        ensures
            r.handled_requests_count == handled_requests_count,
            r.shutdown_reason == Some(shutdown_reason),
    {
        DisconnectionInfo { handled_requests_count, shutdown_reason: Some(shutdown_reason) }
    }
}

/// The time limit for the start of the next request: the first request of a connection
/// gets `start_read_request`, later ones `persistent_start_read_request`; `None` means no limit.
pub fn start_read_timeout(config: &Config, request_count: u64) -> (r: Option<Duration>)
    ensures
        r == if request_count == 0 {
            config.timeouts.start_read_request
        } else {
            config.timeouts.persistent_start_read_request
        },
{
    if request_count == 0 {
        config.timeouts.start_read_request
    } else {
        config.timeouts.persistent_start_read_request
    }
}

/// The number of the request after request number `request_count`; the count saturates.
pub fn next_request_count(request_count: u64) -> (r: u64)
    ensures
        r == if request_count == u64::MAX {
            u64::MAX
        } else {
            (request_count + 1) as u64
        },
{
    if request_count == u64::MAX {
        u64::MAX
    } else {
        request_count + 1
    }
}

/// What waiting for the start of the next request gave.
pub enum WaitOutcome<S, E> {
    /// The shutdown signal resolved first.
    Shutdown(S),
    /// A request has started to arrive.
    RequestPending,
    /// The client closed the connection.
    Closed,
    /// No request started within the time limit.
    TimedOut,
    /// Reading failed.
    Failed(Error<E>),
}

/// Decide what follows the wait for the start of request number `request_count`: `None`
/// when a request is pending and should be read, otherwise the result that ends serving.
pub fn after_wait<S, E>(request_count: u64, outcome: WaitOutcome<S, E>) -> (r: Option<Result<DisconnectionInfo<S>, Error<E>>>)
    ensures
        match outcome {
            WaitOutcome::Shutdown(reason) => r matches Some(Ok(info)) && info.handled_requests_count
                == request_count && info.shutdown_reason == Some(reason),
            WaitOutcome::RequestPending => r is None,
            WaitOutcome::Closed => r matches Some(Ok(info)) && info.handled_requests_count
                == request_count && info.shutdown_reason is None,
            WaitOutcome::TimedOut => r matches Some(Ok(info)) && info.handled_requests_count
                == request_count && info.shutdown_reason is None,
            WaitOutcome::Failed(e) => r == Some(Err::<DisconnectionInfo<S>, Error<E>>(e)),
        },
{
    match outcome {
        WaitOutcome::Shutdown(reason) => Some(Ok(DisconnectionInfo::with_shutdown_reason(request_count, reason))),
        WaitOutcome::RequestPending => None,
        WaitOutcome::Closed => Some(Ok(DisconnectionInfo::no_shutdown_reason(request_count))),
        WaitOutcome::TimedOut => Some(Ok(DisconnectionInfo::no_shutdown_reason(request_count))),
        WaitOutcome::Failed(e) => Some(Err(e)),
    }
}

/// The connection behaviour announced in a response: always close when the server is
/// configured to close, otherwise what the request asks for.
pub open spec fn response_connection_spec(config: Config, http_version: Seq<u8>, headers: Seq<(Seq<u8>, Seq<u8>)>) -> KeepAlive {
    match config.connection {
        KeepAlive::Close => KeepAlive::Close,
        KeepAlive::KeepAlive => keep_alive_for(http_version, headers),
    }
}

/// The connection behaviour announced in the response to a request.
pub fn response_connection(config: &Config, http_version: &str, headers: &Headers) -> (r: KeepAlive)
    ensures
        r == response_connection_spec(*config, http_version.spec_bytes(), headers@),
{
    match config.connection {
        KeepAlive::Close => KeepAlive::Close,
        KeepAlive::KeepAlive => KeepAlive::from_request(http_version, headers),
    }
}

/// A server configured to close connections answers every request with a closing
/// connection, so that each connection serves a single request; one configured to keep
/// connections alive keeps an HTTP/1.1 connection alive unless the request asks otherwise.
pub proof fn lemma_connection_follows_config(
    config: Config,
    http_version: Seq<u8>,
    headers: Seq<(Seq<u8>, Seq<u8>)>,
)
    ensures
        config.connection == KeepAlive::Close ==> response_connection_spec(
            config,
            http_version,
            headers,
        ) == KeepAlive::Close,
        config.connection == KeepAlive::KeepAlive && is_http_1_1(http_version) && header_lookup(
            headers,
            "connection".spec_bytes(),
        ) is None ==> response_connection_spec(config, http_version, headers)
            == KeepAlive::KeepAlive,
{
}

/// How a response that was interrupted by the shutdown signal ended.
pub enum ShutdownWait<E> {
    /// The response was sent within the shutdown time limit.
    Sent,
    /// The response was not sent within the shutdown time limit.
    TimedOut,
    /// Sending the response failed.
    Failed(Error<E>),
}

/// How handling a request ended.
pub enum HandlingOutcome<S, E> {
    /// The response was sent.
    Sent,
    /// Sending the response failed.
    Failed(Error<E>),
    /// The shutdown signal resolved while the request was being handled.
    Shutdown(S, ShutdownWait<E>),
}

/// What the connection loop does next.
pub enum LoopStep<S, E> {
    /// Wait for the next request on the same connection.
    Continue,
    /// Stop serving with this result.
    Stop(Result<DisconnectionInfo<S>, Error<E>>),
}

/// Decide what follows handling request number `request_count`, whose response announced
/// the connection behaviour `connection`.
pub fn after_handling<S, E>(request_count: u64, connection: KeepAlive, outcome: HandlingOutcome<S, E>) -> (r: LoopStep<S, E>)
    requires
        request_count < u64::MAX,
    ensures
        match outcome {
            HandlingOutcome::Sent => match connection {
                KeepAlive::KeepAlive => r is Continue,
                KeepAlive::Close => r matches LoopStep::Stop(Ok(info)) && info.handled_requests_count
                    == request_count + 1 && info.shutdown_reason is None,
            },
            HandlingOutcome::Failed(e) => r == LoopStep::<S, E>::Stop(Err(e)),
            HandlingOutcome::Shutdown(reason, ShutdownWait::Sent) => r matches LoopStep::Stop(Ok(info))
                && info.handled_requests_count == request_count + 1 && info.shutdown_reason == Some(reason),
            HandlingOutcome::Shutdown(reason, ShutdownWait::TimedOut) => r matches LoopStep::Stop(Ok(info))
                && info.handled_requests_count == request_count && info.shutdown_reason == Some(reason),
            HandlingOutcome::Shutdown(_, ShutdownWait::Failed(e)) => r == LoopStep::<S, E>::Stop(Err(e)),
        },
{
    match outcome {
        HandlingOutcome::Sent => match connection {
            KeepAlive::KeepAlive => LoopStep::Continue,
            KeepAlive::Close => LoopStep::Stop(Ok(DisconnectionInfo::no_shutdown_reason(request_count + 1))),
        },
        HandlingOutcome::Failed(e) => LoopStep::Stop(Err(e)),
        HandlingOutcome::Shutdown(reason, wait) => match wait {
            ShutdownWait::Sent => LoopStep::Stop(Ok(DisconnectionInfo::with_shutdown_reason(request_count + 1, reason))),
            ShutdownWait::TimedOut => LoopStep::Stop(Ok(DisconnectionInfo::with_shutdown_reason(request_count, reason))),
            ShutdownWait::Failed(e) => LoopStep::Stop(Err(e)),
        },
    }
}

/// Errors arising while reading a request.
#[derive(Debug, PartialEq, Eq, Structural)]
pub enum ReadError<E> {
    /// The request line is malformed.
    BadRequestLine,
    /// A header line has no ':'.
    HeaderDoesNotContainColon,
    /// The connection ended inside the request.
    UnexpectedEof,
    /// Reading failed.
    IO(Error<E>),
}

/// The message of the "400 Bad Request" response to a request that could not be read, or
/// the error that ends serving at once when reading itself failed.
pub fn bad_request_message<E>(err: ReadError<E>) -> (r: Result<&'static str, Error<E>>)
    ensures
        match err {
            ReadError::BadRequestLine => r matches Ok(m) && m@ == "Bad Request Line"@,
            ReadError::HeaderDoesNotContainColon => r matches Ok(m) && m@
                == "Invalid Header line: No ':' character"@,
            ReadError::UnexpectedEof => r matches Ok(m) && m@
                == "Unexpected EOF while reading request"@,
            ReadError::IO(e) => r == Err::<&'static str, Error<E>>(e),
        },
{
    match err {
        ReadError::BadRequestLine => Ok("Bad Request Line"),
        ReadError::HeaderDoesNotContainColon => Ok("Invalid Header line: No ':' character"),
        ReadError::UnexpectedEof => Ok("Unexpected EOF while reading request"),
        ReadError::IO(e) => Err(e),
    }
}

/// How writing a response ended.
pub enum WriteOutcome<E> {
    /// The response was sent.
    Sent,
    /// Writing failed.
    Failed(Error<E>),
    /// Writing did not finish within the time limit.
    TimedOut(TimeoutError),
}

/// The error that ends serving after the "400 Bad Request" response was written.
pub fn after_bad_request_response<E>(outcome: WriteOutcome<E>) -> (r: Error<E>)
    ensures
        r == match outcome {
            WriteOutcome::Sent => Error::<E>::BadRequest,
            WriteOutcome::Failed(e) => e,
            WriteOutcome::TimedOut(t) => Error::<E>::WriteTimeout(t),
        },
{
    match outcome {
        WriteOutcome::Sent => Error::BadRequest,
        WriteOutcome::Failed(e) => e,
        WriteOutcome::TimedOut(t) => Error::WriteTimeout(t),
    }
}

/// How the socket is closed once serving ends.
#[derive(Debug, Clone, Copy, PartialEq, Eq, Structural)]
pub enum Closing {
    /// Abort the connection.
    Abort,
    /// Shut the connection down gracefully.
    Shutdown,
}

/// How to close the socket: serving that ended in an error, or a connection whose request
/// was not read to its end, is aborted; otherwise the connection is shut down gracefully.
pub fn closing_action(serving_failed: bool, connection_must_be_aborted: bool) -> (r: Closing)
    ensures
        r == if serving_failed || connection_must_be_aborted {
            Closing::Abort
        } else {
            Closing::Shutdown
        },
{
    if serving_failed || connection_must_be_aborted {
        Closing::Abort
    } else {
        Closing::Shutdown
    }
}

/// Swap the inner and outer errors of a nested result.
pub fn swap_errors<T, E0, E1>(r: Result<Result<T, E0>, E1>) -> (out: Result<Result<T, E1>, E0>)
    ensures
        out == match r {
            Ok(Ok(value)) => Ok(Ok(value)),
            Ok(Err(error)) => Err(error),
            Err(error) => Ok(Err(error)),
        },
{
    match r {
        Ok(Ok(value)) => Ok(Ok(value)),
        Ok(Err(error)) => Err(error),
        Err(error) => Ok(Err(error)),
    }
}

} // verus!
