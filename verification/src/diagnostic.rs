//! The diagnostic library's data model and the decisions of its HTTP API:
//! error answers, stream requests, and the pace of self-registration.

use vstd::prelude::*;

use vstd::arithmetic::power2::pow2;

use crate::text::{
    chars_of, concat2, opt_view, pieces_view, push_str, split_on, split_vec, string_of, strings_view,
    trim_white, trim_white_vec,
};

verus! {

/// The category of a data item.
#[derive(Debug, Clone)]
pub enum DataCategory {
    /// Current, live data.
    CurrentData,
    /// Identification data.
    IdentData,
    /// Configuration data.
    ConfigData,
    /// Fault and DTC data.
    FaultData,
    /// System information.
    SysInfo,
    /// A category of the application's own.
    Custom(String),
}

impl DataCategory {
    /// The name of the category on the wire.
    pub open spec fn wire(&self) -> Seq<char> {
        match self {
            DataCategory::CurrentData => "currentData"@,
            DataCategory::IdentData => "identData"@,
            DataCategory::ConfigData => "configData"@,
            DataCategory::FaultData => "faultData"@,
            DataCategory::SysInfo => "sysInfo"@,
            DataCategory::Custom(s) => s@,
        }
    }

    /// The name of the category on the wire.
    pub fn as_str(&self) -> (r: &str)
        ensures
            r@ == self.wire(),
    {
        match self {
            DataCategory::CurrentData => "currentData",
            DataCategory::IdentData => "identData",
            DataCategory::ConfigData => "configData",
            DataCategory::FaultData => "faultData",
            DataCategory::SysInfo => "sysInfo",
            DataCategory::Custom(s) => s.as_str(),
        }
    }
}

/// The answer of the health check.
#[derive(Debug, Clone)]
pub struct HealthResponse {
    pub status: String,
    /// Seconds since the Unix epoch.
    pub timestamp: u64,
}

impl HealthResponse {
    /// A healthy answer at `timestamp`.
    pub fn healthy(timestamp: u64) -> (r: Self)
        ensures
            r.status@ == "healthy"@,
            r.timestamp == timestamp,
    {
        HealthResponse { status: "healthy".to_owned(), timestamp }
    }
}

/// What the API tells of the application.
#[derive(Debug, Clone)]
pub struct ApiInfo {
    pub name: String,
    pub version: String,
    pub description: String,
}

/// What an application tells of itself.
#[derive(Debug, Clone)]
pub struct AppInfo {
    pub name: String,
    pub version: String,
    pub description: String,
}

impl AppInfo {
    /// What an application that tells nothing of itself is described as.
    pub fn fallback() -> (r: Self)
        ensures
            r.name@ == "HPC Application"@,
            r.version@ == "1.0.0"@,
            r.description@ == "Diagnostic-enabled HPC application"@,
    {
        AppInfo {
            name: "HPC Application".to_owned(),
            version: "1.0.0".to_owned(),
            description: "Diagnostic-enabled HPC application".to_owned(),
        }
    }

    /// The API's answer about the application.
    pub fn api_info(self) -> (r: ApiInfo)
        ensures
            r.name == self.name,
            r.version == self.version,
            r.description == self.description,
    {
        ApiInfo { name: self.name, version: self.version, description: self.description }
    }
}

/// Where an application's diagnostic API can be reached.
#[derive(Debug, Clone)]
pub struct AppEndpoint {
    /// The app's id.
    pub app_id: String,
    /// The app's name.
    pub app_name: String,
    /// The port the diagnostic API listens on.
    pub port: u16,
    /// The component that hosts the app.
    pub hosted_on: String,
}

/// Registers apps with a SOVD server over HTTP.
#[derive(Debug, Clone)]
pub struct HttpRegistrar {
    url: String,
}

impl HttpRegistrar {
    /// The registration URL.
    pub closed spec fn url_view(&self) -> Seq<char> {
        self.url@
    }

    /// A registrar that posts to `url` on registration and deletes
    /// `{url}/{app_id}` on deregistration.
    pub fn new(url: &str) -> (r: Self)
        ensures
            r.url_view() == url@,
    {
        HttpRegistrar { url: url.to_owned() }
    }

    /// Where a registration is posted.
    pub fn register_url(&self) -> (r: &str)
        ensures
            r@ == self.url_view(),
    {
        self.url.as_str()
    }

    /// Where the deregistration of `endpoint` is sent.
    pub fn deregister_url(&self, endpoint: &AppEndpoint) -> (r: String)
        ensures
            r@ == self.url_view() + "/"@ + endpoint.app_id@,
    {
        let mut s = concat2(self.url.as_str(), "/");
        push_str(&mut s, endpoint.app_id.as_str());
        s
    }
}

/// The first wait after a failed registration, in milliseconds.
pub const FIRST_REGISTRATION_DELAY_MS: u64 = 500;

/// The longest wait between registration attempts, in milliseconds.
pub const MAX_REGISTRATION_DELAY_MS: u64 = 30_000;

/// The wait after the next failed attempt: twice the last one, at most 30 s.
pub open spec fn next_delay_of(delay_ms: u64) -> u64 {
    if 2 * delay_ms < MAX_REGISTRATION_DELAY_MS {
        (2 * delay_ms) as u64
    } else {
        MAX_REGISTRATION_DELAY_MS
    }
}

/// The wait after the next failed registration attempt.
pub fn next_registration_delay(delay_ms: u64) -> (r: u64)
    ensures
        r == next_delay_of(delay_ms),
{
    if delay_ms < MAX_REGISTRATION_DELAY_MS / 2 {
        2 * delay_ms
    } else {
        MAX_REGISTRATION_DELAY_MS
    }
}

/// The wait before attempt `n + 1`, counting from the first wait.
pub open spec fn registration_delay_after(n: nat) -> u64
    decreases n,
{
    if n == 0 {
        FIRST_REGISTRATION_DELAY_MS
    } else {
        next_delay_of(registration_delay_after((n - 1) as nat))
    }
}

/// Waits between registration attempts never shrink and never pass 30 s.
pub proof fn lemma_registration_delays(n: nat)
    ensures
        registration_delay_after(n) <= MAX_REGISTRATION_DELAY_MS,
        registration_delay_after(n) <= registration_delay_after(n + 1),
        registration_delay_after(n) >= FIRST_REGISTRATION_DELAY_MS,
    decreases n,
{
    if n > 0 {
        lemma_registration_delays((n - 1) as nat);
    }
}

/// The wait before attempt `n + 1` is 500 ms doubled `n` times, at most
/// 30 s.
pub proof fn lemma_registration_delay_closed_form(n: nat)
    ensures
        registration_delay_after(n) == if 500 * pow2(n) < MAX_REGISTRATION_DELAY_MS {
            500 * pow2(n)
        } else {
            MAX_REGISTRATION_DELAY_MS as nat
        },
    decreases n,
{
    if n == 0 {
        assert(pow2(0) == 1) by {
            vstd::arithmetic::power2::lemma2_to64();
        }
    } else {
        let m = (n - 1) as nat;
        lemma_registration_delay_closed_form(m);
        vstd::arithmetic::power2::lemma_pow2_unfold(n);
    }
}

/// What a registration attempt gave.
#[derive(Debug, Clone, Copy, PartialEq, Eq, Structural)]
pub enum RegistrationOutcome {
    Registered,
    Failed,
}

/// What the registration task does after an attempt.
#[derive(Debug, Clone, Copy, PartialEq, Eq, Structural)]
pub enum RegistrationAction {
    /// The app is registered: attempt no more.
    Stop,
    /// Wait this long, then attempt again.
    RetryAfter { wait_ms: u64 },
}

/// The registration task's decision after an attempt, given the wait a
/// failure now takes: the wait for the next failure, and what to do.
pub open spec fn registration_transition(delay_ms: u64, o: RegistrationOutcome) -> (u64, RegistrationAction) {
    match o {
        RegistrationOutcome::Registered => (delay_ms, RegistrationAction::Stop),
        RegistrationOutcome::Failed => (
            next_delay_of(delay_ms),
            RegistrationAction::RetryAfter { wait_ms: delay_ms },
        ),
    }
}

/// Decides what the registration task does after an attempt: stop once
/// registered, else wait the current delay and double it for next time.
pub fn registration_step(delay_ms: u64, o: RegistrationOutcome) -> (r: (u64, RegistrationAction))
    ensures
        r == registration_transition(delay_ms, o),
{
    match o {
        RegistrationOutcome::Registered => (delay_ms, RegistrationAction::Stop),
        RegistrationOutcome::Failed => (
            next_registration_delay(delay_ms),
            RegistrationAction::RetryAfter { wait_ms: delay_ms },
        ),
    }
}

/// The actions of the registration task over a run of attempts, starting
/// with the wait `delay_ms`.
pub open spec fn registration_run(delay_ms: u64, os: Seq<RegistrationOutcome>) -> Seq<RegistrationAction>
    decreases os.len(),
{
    if os.len() == 0 {
        Seq::empty()
    } else {
        let (d, a) = registration_transition(delay_ms, os[0]);
        seq![a] + registration_run(d, os.drop_first())
    }
}

/// `n` failed attempts, then a successful one.
pub open spec fn fails_then_registers(n: nat) -> Seq<RegistrationOutcome> {
    Seq::new(n, |i: int| RegistrationOutcome::Failed).push(RegistrationOutcome::Registered)
}

/// When registration fails `n` times and then succeeds, the task makes
/// exactly `n + 1` attempts: after the failed attempt `i` it waits
/// `registration_delay_after(j + i)` (starting from the wait after `j`
/// failures), and after the success it stops.
pub proof fn lemma_registration_attempts(j: nat, n: nat)
    ensures
        registration_run(registration_delay_after(j), fails_then_registers(n)).len() == n + 1,
        forall|i: int|
            0 <= i < n ==> #[trigger] registration_run(registration_delay_after(j), fails_then_registers(n))[i]
                == (RegistrationAction::RetryAfter { wait_ms: registration_delay_after(j + i as nat) }),
        registration_run(registration_delay_after(j), fails_then_registers(n))[n as int]
            == RegistrationAction::Stop,
    decreases n,
{
    let os = fails_then_registers(n);
    let run = registration_run(registration_delay_after(j), os);
    if n == 0 {
        assert(os =~= seq![RegistrationOutcome::Registered]);
        assert(os.drop_first() =~= Seq::<RegistrationOutcome>::empty());
        let d = registration_transition(registration_delay_after(j), os[0]).0;
        assert(registration_run(d, os.drop_first()) == Seq::<RegistrationAction>::empty());
        assert(run =~= seq![RegistrationAction::Stop]);
    } else {
        assert(os.drop_first() =~= fails_then_registers((n - 1) as nat));
        assert(os[0] == RegistrationOutcome::Failed);
        lemma_registration_attempts(j + 1, (n - 1) as nat);
        assert(next_delay_of(registration_delay_after(j)) == registration_delay_after(j + 1));
        let rest = registration_run(registration_delay_after(j + 1), fails_then_registers((n - 1) as nat));
        assert(run == seq![RegistrationAction::RetryAfter { wait_ms: registration_delay_after(j) }] + rest);
        assert forall|i: int| 0 <= i < n implies #[trigger] run[i] == (RegistrationAction::RetryAfter {
            wait_ms: registration_delay_after(j + i as nat),
        }) by {
            if i > 0 {
                assert(run[i] == rest[i - 1]);
                assert(j + 1 + (i - 1) as nat == j + i as nat);
            }
        }
        assert(run[n as int] == rest[n - 1]);
    }
}

/// How a data stream is set up.
#[derive(Debug, Clone)]
pub struct StreamConfig {
    /// The interval between updates, in milliseconds.
    pub interval_ms: u64,
    /// The data items streamed.
    pub data_ids: Vec<String>,
    /// The most subscribers at once.
    pub max_subscribers: usize,
}

impl Default for StreamConfig {
    fn default() -> (r: Self)
        ensures
            r.interval_ms == 100,
            r.data_ids@.len() == 0,
            r.max_subscribers == 100,
    {
        StreamConfig { interval_ms: 100, data_ids: Vec::new(), max_subscribers: 100 }
    }
}

/// The non-empty trimmed pieces of `pieces`, in order.
pub open spec fn kept_ids(pieces: Seq<Seq<char>>) -> Seq<Seq<char>>
    decreases pieces.len(),
{
    if pieces.len() == 0 {
        Seq::empty()
    } else {
        let t = trim_white(pieces.last());
        if t.len() == 0 {
            kept_ids(pieces.drop_last())
        } else {
            kept_ids(pieces.drop_last()).push(t)
        }
    }
}

/// The data items a stream request names: the comma-separated ids, trimmed,
/// the empty ones left out.
pub fn stream_data_ids(text: &str) -> (r: Vec<String>)
    ensures
        strings_view(r@) == kept_ids(split_on(text@, ',')),
{
    let v = chars_of(text);
    let parts = split_vec(&v, ',');
    let ghost pv = pieces_view(parts@);
    let mut ids: Vec<String> = Vec::new();
    proof {
        assert(pv.take(0) =~= Seq::<Seq<char>>::empty());
        assert(strings_view(ids@) =~= kept_ids(pv.take(0)));
    }
    for i in 0..parts.len()
        invariant
            pv == pieces_view(parts@),
            pv.len() == parts@.len(),
            strings_view(ids@) == kept_ids(pv.take(i as int)),
    {
        let t = trim_white_vec(&parts[i]);
        assert(pv.take(i + 1).drop_last() =~= pv.take(i as int));
        assert(pv.take(i + 1).last() == parts@[i as int]@);
        if t.len() > 0 {
            let ghost before = ids@;
            ids.push(string_of(&t));
            assert(strings_view(ids@) =~= strings_view(before).push(t@));
        }
    }
    assert(pv.take(parts@.len() as int) =~= pv);
    ids
}

/// The interval of a stream: the one asked for, else 100 ms.
pub fn stream_interval(asked_ms: Option<u64>) -> (r: u64)
    ensures
        r == (match asked_ms {
            Some(ms) => ms,
            None => 100,
        }),
{
    match asked_ms {
        Some(ms) => ms,
        None => 100,
    }
}

/// The name of a stream event: its own type, else `update`.
pub fn sse_event_name(event_type: Option<&str>) -> (r: &str)
    ensures
        r@ == (match event_type {
            Some(t) => t@,
            None => "update"@,
        }),
{
    match event_type {
        Some(t) => t,
        None => "update",
    }
}

/// An update of a streamed data item.
pub struct StreamUpdate<T> {
    /// The data item.
    pub data_id: String,
    /// Its value.
    pub value: T,
    /// When it was read, in milliseconds since the Unix epoch.
    pub timestamp: u64,
    /// The event type.
    pub event_type: Option<String>,
}

/// What a periodic stream sends for one item it read at `timestamp_ms`: an
/// `update` event with the value where the read succeeded, nothing where it
/// failed.
pub fn stream_update<T>(data_id: &str, fetched: Result<T, String>, timestamp_ms: u64) -> (r: Option<
    StreamUpdate<T>,
>)
    ensures
        match fetched {
            Ok(v) => match r {
                Some(u) => u.data_id@ == data_id@ && u.value == v && u.timestamp == timestamp_ms
                    && opt_view(u.event_type) == Some("update"@),
                None => false,
            },
            Err(_) => r is None,
        },
{
    match fetched {
        Ok(value) => Some(
            StreamUpdate {
                data_id: data_id.to_owned(),
                value,
                timestamp: timestamp_ms,
                event_type: Some("update".to_owned()),
            },
        ),
        Err(_) => None,
    }
}

/// Why a request of the diagnostic API failed.
#[derive(Debug, Clone)]
pub enum DiagnosticError {
    /// No data item has this id.
    NotFound(String),
    /// The data item cannot be written.
    ReadOnly(String),
    /// The data does not have the expected form.
    InvalidData(String),
    /// The application failed.
    Internal(String),
    /// The HTTP server failed.
    ServerError(String),
    /// JSON could not be read or written; the message of that failure.
    SerializationError(String),
}

impl DiagnosticError {
    /// The message that describes the error.
    pub open spec fn text(&self) -> Seq<char> {
        match self {
            DiagnosticError::NotFound(m) => "Data item not found: "@ + m@,
            DiagnosticError::ReadOnly(m) => "Data item is read-only: "@ + m@,
            DiagnosticError::InvalidData(m) => "Invalid data format: "@ + m@,
            DiagnosticError::Internal(m) => "Internal error: "@ + m@,
            DiagnosticError::ServerError(m) => "HTTP server error: "@ + m@,
            DiagnosticError::SerializationError(m) => "Serialization error: "@ + m@,
        }
    }

    /// The message that describes the error.
    pub fn message(&self) -> (r: String)
        ensures
            r@ == self.text(),
    {
        match self {
            DiagnosticError::NotFound(m) => concat2("Data item not found: ", m.as_str()),
            DiagnosticError::ReadOnly(m) => concat2("Data item is read-only: ", m.as_str()),
            DiagnosticError::InvalidData(m) => concat2("Invalid data format: ", m.as_str()),
            DiagnosticError::Internal(m) => concat2("Internal error: ", m.as_str()),
            DiagnosticError::ServerError(m) => concat2("HTTP server error: ", m.as_str()),
            DiagnosticError::SerializationError(m) => concat2("Serialization error: ", m.as_str()),
        }
    }

    /// The status of the answer to this error.
    pub open spec fn status_of(&self) -> u16 {
        match self {
            DiagnosticError::NotFound(_) => 404,
            DiagnosticError::ReadOnly(_) => 403,
            DiagnosticError::InvalidData(_) => 400,
            DiagnosticError::Internal(_) => 500,
            DiagnosticError::ServerError(_) => 500,
            DiagnosticError::SerializationError(_) => 400,
        }
    }

    /// The status and message the API answers this error with: the error's
    /// own detail, without its description.
    pub fn answer(&self) -> (r: (u16, String))
        ensures
            r.0 == self.status_of(),
            r.1@ == (match self {
                DiagnosticError::NotFound(m) => m@,
                DiagnosticError::ReadOnly(m) => m@,
                DiagnosticError::InvalidData(m) => m@,
                DiagnosticError::Internal(m) => m@,
                DiagnosticError::ServerError(m) => m@,
                DiagnosticError::SerializationError(m) => m@,
            }),
    {
        match self {
            DiagnosticError::NotFound(m) => (404, m.clone()),
            DiagnosticError::ReadOnly(m) => (403, m.clone()),
            DiagnosticError::InvalidData(m) => (400, m.clone()),
            DiagnosticError::Internal(m) => (500, m.clone()),
            DiagnosticError::ServerError(m) => (500, m.clone()),
            DiagnosticError::SerializationError(m) => (400, m.clone()),
        }
    }
}

/// The message of a successful write.
pub fn written_message(data_id: &str) -> (r: String)
    ensures
        r@ == "Data written to "@ + data_id@,
{
    concat2("Data written to ", data_id)
}

} // verus!
