//! TLS for the SOVD server: which PEM files make up the server's
//! configuration, and how the TLS listener admits connections to a bounded
//! number of concurrent handshakes.

use vstd::prelude::*;

use crate::text::strings_view;

verus! {

/// What a [`ServerTlsConfig`] names: the certificate chain, the private key,
/// and the CA bundles that client certificates are checked against.
pub struct TlsFilesView {
    pub cert: Seq<char>,
    pub key: Seq<char>,
    pub client_cas: Seq<Seq<char>>,
}

/// Whether a configuration asks clients for certificates (mutual TLS).
pub open spec fn mtls(v: TlsFilesView) -> bool {
    v.client_cas.len() > 0
}

/// The PEM files a TLS server configuration is built from; any client CA
/// enables mutual TLS.
#[derive(Debug, Clone)]
pub struct ServerTlsConfig {
    cert: String,
    key: String,
    client_cas: Vec<String>,
}

impl View for ServerTlsConfig {
    type V = TlsFilesView;

    closed spec fn view(&self) -> TlsFilesView {
        TlsFilesView { cert: self.cert@, key: self.key@, client_cas: strings_view(self.client_cas@) }
    }
}

impl ServerTlsConfig {
    /// A configuration with the given certificate chain and key, and no
    /// client CA.
    pub fn new(cert: String, key: String) -> (r: Self)
        ensures
            r@ == (TlsFilesView { cert: cert@, key: key@, client_cas: Seq::empty() }),
    {
        let r = ServerTlsConfig { cert, key, client_cas: Vec::new() };
        assert(strings_view(r.client_cas@) =~= Seq::<Seq<char>>::empty());
        r
    }

    /// Adds a CA bundle that client certificates are checked against.
    pub fn client_ca(self, path: String) -> (r: Self)
        ensures
            r@ == (TlsFilesView { client_cas: self@.client_cas.push(path@), ..self@ }),
    {
        let mut client_cas = self.client_cas;
        let ghost before = client_cas@;
        client_cas.push(path);
        assert(strings_view(client_cas@) =~= strings_view(before).push(path@));
        ServerTlsConfig { cert: self.cert, key: self.key, client_cas }
    }

    /// Adds several CA bundles, in order.
    pub fn client_cas(self, paths: Vec<String>) -> (r: Self)
        ensures
            r@ == (TlsFilesView { client_cas: self@.client_cas + strings_view(paths@), ..self@ }),
    {
        let mut client_cas = self.client_cas;
        let ghost start = client_cas@;
        let mut i: usize = 0;
        while i < paths.len()
            invariant
                i <= paths.len(),
                client_cas@ == start + paths@.take(i as int),
            decreases paths.len() - i,
        {
            client_cas.push(paths[i].clone());
            assert(paths@.take(i + 1) =~= paths@.take(i as int).push(paths@[i as int]));
            i = i + 1;
        }
        assert(paths@.take(paths.len() as int) =~= paths@);
        assert(strings_view(client_cas@) =~= strings_view(start) + strings_view(paths@));
        ServerTlsConfig { cert: self.cert, key: self.key, client_cas }
    }

    /// Whether clients must present a certificate.
    pub fn is_mtls(&self) -> (b: bool)
        ensures
            b == mtls(self@),
    {
        self.client_cas.len() > 0
    }

    /// The certificate chain file.
    pub fn cert(&self) -> (r: &str)
        ensures
            r@ == self@.cert,
    {
        self.cert.as_str()
    }

    /// The private key file.
    pub fn key(&self) -> (r: &str)
        ensures
            r@ == self@.key,
    {
        self.key.as_str()
    }

    /// The client CA bundles, in the order they were added.
    pub fn client_ca_paths(&self) -> (r: &Vec<String>)
        ensures
            strings_view(r@) == self@.client_cas,
    {
        &self.client_cas
    }
}

/// A configuration built from `new` alone does not ask for client
/// certificates; once a client CA is added, by `client_ca` or by a non-empty
/// `client_cas`, it does, and adding more keeps it so.
pub proof fn lemma_client_ca_enables_mtls(
    v: TlsFilesView,
    cert: Seq<char>,
    key: Seq<char>,
    path: Seq<char>,
    paths: Seq<Seq<char>>,
)
    ensures
        !mtls(TlsFilesView { cert, key, client_cas: Seq::empty() }),
        mtls(TlsFilesView { client_cas: v.client_cas.push(path), ..v }),
        paths.len() > 0 ==> mtls(TlsFilesView { client_cas: v.client_cas + paths, ..v }),
        mtls(v) ==> mtls(TlsFilesView { client_cas: v.client_cas + paths, ..v }),
{
}

/// The most TLS handshakes in flight at once.
pub const MAX_PENDING_HANDSHAKES: usize = 256;

/// How long a handshake may take before its connection is dropped.
pub const TLS_HANDSHAKE_TIMEOUT_MS: u64 = 10_000;

/// The pause after a failed TCP accept, so persistent errors do not spin.
pub const ACCEPT_RETRY_MS: u64 = 10;

/// What the TLS listener learns while it waits for a connection to hand out.
#[derive(Debug, Clone, Copy, PartialEq, Eq, Structural)]
pub enum ListenerEvent {
    /// A TCP connection was accepted.
    Accepted,
    /// Accepting a TCP connection failed.
    AcceptFailed,
    /// A handshake task ended (completed, failed or timed out), freeing its
    /// slot.
    HandshakeEnded,
    /// A completed handshake is ready to be handed out.
    Completed,
}

/// What the TLS listener does next.
#[derive(Debug, Clone, Copy, PartialEq, Eq, Structural)]
pub enum ListenerAction {
    /// Run the handshake in a task of its own, bounded by the timeout.
    StartHandshake { timeout_ms: u64 },
    /// All slots are taken: drop the connection.
    DropConnection,
    /// Wait before accepting again.
    Pause { ms: u64 },
    /// Hand the completed connection to the server.
    Deliver,
    /// Keep waiting for the next event.
    Wait,
}

/// The handshakes in flight.
#[derive(Debug, Clone, Copy, PartialEq, Eq, Structural)]
pub struct HandshakeSlots {
    pub pending: usize,
}

/// A listener state is valid while no more handshakes are in flight than
/// there are slots.
pub open spec fn slots_valid(s: HandshakeSlots) -> bool {
    s.pending <= MAX_PENDING_HANDSHAKES
}

/// The listener's decision on an event.
pub open spec fn listener_transition(s: HandshakeSlots, e: ListenerEvent) -> (HandshakeSlots, ListenerAction) {
    match e {
        ListenerEvent::Accepted => if s.pending < MAX_PENDING_HANDSHAKES {
            (
                HandshakeSlots { pending: (s.pending + 1) as usize },
                ListenerAction::StartHandshake { timeout_ms: TLS_HANDSHAKE_TIMEOUT_MS },
            )
        } else {
            (s, ListenerAction::DropConnection)
        },
        ListenerEvent::AcceptFailed => (s, ListenerAction::Pause { ms: ACCEPT_RETRY_MS }),
        ListenerEvent::HandshakeEnded => (
            HandshakeSlots { pending: if s.pending > 0 { (s.pending - 1) as usize } else { 0 } },
            ListenerAction::Wait,
        ),
        ListenerEvent::Completed => (s, ListenerAction::Deliver),
    }
}

impl HandshakeSlots {
    /// No handshake in flight.
    pub fn new() -> (r: HandshakeSlots)
        ensures
            r.pending == 0,
            slots_valid(r),
    {
        HandshakeSlots { pending: 0 }
    }
}

/// Decides what the TLS listener does on an event: an accepted connection
/// gets a handshake of its own while a slot is free and is dropped
/// otherwise; a failed accept pauses; an ended handshake frees its slot; a
/// completed one is handed out.
pub fn listener_step(s: HandshakeSlots, e: ListenerEvent) -> (r: (HandshakeSlots, ListenerAction))
    ensures
        r == listener_transition(s, e),
        slots_valid(s) ==> slots_valid(r.0),
{
    match e {
        ListenerEvent::Accepted => {
            if s.pending < MAX_PENDING_HANDSHAKES {
                (
                    HandshakeSlots { pending: s.pending + 1 },
                    ListenerAction::StartHandshake { timeout_ms: TLS_HANDSHAKE_TIMEOUT_MS },
                )
            } else {
                (s, ListenerAction::DropConnection)
            }
        },
        ListenerEvent::AcceptFailed => (s, ListenerAction::Pause { ms: ACCEPT_RETRY_MS }),
        ListenerEvent::HandshakeEnded => {
            let pending = if s.pending > 0 {
                s.pending - 1
            } else {
                0
            };
            (HandshakeSlots { pending }, ListenerAction::Wait)
        },
        ListenerEvent::Completed => (s, ListenerAction::Deliver),
    }
}

/// The listener state after a run of events.
pub open spec fn listener_run(s: HandshakeSlots, es: Seq<ListenerEvent>) -> HandshakeSlots
    decreases es.len(),
{
    if es.len() == 0 {
        s
    } else {
        listener_transition(listener_run(s, es.drop_last()), es.last()).0
    }
}

/// Over any run of events, never more handshakes are in flight than there
/// are slots, and a connection is dropped exactly when all slots are taken.
pub proof fn lemma_handshakes_bounded(s: HandshakeSlots, es: Seq<ListenerEvent>)
    requires
        slots_valid(s),
    ensures
        slots_valid(listener_run(s, es)),
        listener_transition(listener_run(s, es), ListenerEvent::Accepted).1
            == ListenerAction::DropConnection <==> listener_run(s, es).pending
            == MAX_PENDING_HANDSHAKES,
    decreases es.len(),
{
    if es.len() > 0 {
        lemma_handshakes_bounded(s, es.drop_last());
    }
}

} // verus!
