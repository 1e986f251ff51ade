//! Network transport abstraction for entity-to-network communication, and the receive side
//! of the length-prefixed reliable stream.
//!
//! The stream itself (QUIC, TCP) is driven by the caller, which does the reads and hands the
//! bytes here: this module keeps the partial frame between reads, decodes complete frames
//! and hands them out one per call, in order.
use vstd::prelude::*;
use std::collections::VecDeque;
use std::time::Instant;
use crate::framing::{byte_views, drain_length_prefixed, spec_drain, MAX_FRAME_BYTES};
use crate::text::{append_chars, chars_of, dec, dec_chars, string_of};

verus! {

/// Network address abstraction.
#[derive(Debug, Clone)]
pub enum NetworkAddress {
    /// TCP endpoint
    Tcp { host: String, port: u16 },
    /// UDP endpoint
    Udp { host: String, port: u16 },
    /// Custom addressing scheme
    Custom { scheme: String, address: String },
}

/// Network message received from an external source.
#[derive(Debug)]
pub struct NetworkMessage {
    pub source: NetworkAddress,
    pub payload: Vec<u8>,
    pub timestamp: Instant,
}

/// Network-related errors.
#[derive(Debug, Clone)]
pub enum NetworkError {
    ConnectionFailed(String),
    SendFailed(String),
    ReceiveFailed(String),
    SerializationError(String),
    InvalidService(String),
    InvalidServiceVersion(String),
    Timeout,
}

/// The message shown for an error (a receive failure does not show its detail).
pub open spec fn transport_error_text(e: NetworkError) -> Seq<char> {
    match e {
        NetworkError::ConnectionFailed(m) => "Connection failed: "@ + m@,
        NetworkError::SendFailed(m) => "Send failed: "@ + m@,
        NetworkError::ReceiveFailed(_) => "Receive failed"@,
        NetworkError::SerializationError(m) => "Serialization error: "@ + m@,
        NetworkError::InvalidService(m) => "Invalid service: "@ + m@,
        NetworkError::InvalidServiceVersion(m) => "Invalid service version: "@ + m@,
        NetworkError::Timeout => "Operation timed out"@,
    }
}

/// `prefix` followed by `detail`.
fn prefixed(prefix: &str, detail: &String) -> (r: String)
    ensures
        r@ == prefix@ + detail@,
{
    let mut m = chars_of(prefix);
    append_chars(&mut m, chars_of(detail.as_str()).as_slice());
    string_of(m.as_slice())
}

impl NetworkError {
    /// The message shown for this error.
    pub fn message(&self) -> (r: String)
        ensures
            r@ == transport_error_text(*self),
    {
        match self {
            NetworkError::ConnectionFailed(m) => prefixed("Connection failed: ", m),
            NetworkError::SendFailed(m) => prefixed("Send failed: ", m),
            NetworkError::ReceiveFailed(_) => string_of(chars_of("Receive failed").as_slice()),
            NetworkError::SerializationError(m) => prefixed("Serialization error: ", m),
            NetworkError::InvalidService(m) => prefixed("Invalid service: ", m),
            NetworkError::InvalidServiceVersion(m) => prefixed("Invalid service version: ", m),
            NetworkError::Timeout => string_of(chars_of("Operation timed out").as_slice()),
        }
    }
}

/// Network transport abstraction for entity-to-network communication: reliable (streams)
/// and unreliable (datagrams) channels.
pub trait NetworkTransport {
    /// Connect or reconnect the transport. Destroys any existing connection.
    fn connect(&mut self) -> Result<(), NetworkError>;

    /// Send a message reliably (guaranteed delivery, ordered arrival).
    fn send_reliable(&mut self, payload: &[u8]) -> Result<(), NetworkError>;

    /// Send a message unreliably (no delivery guarantee, unordered, lower latency).
    fn send_unreliable(&mut self, payload: &[u8]) -> Result<(), NetworkError>;

    /// Receive pending messages from the reliable channel (non-blocking).
    fn receive_reliable(&mut self) -> Vec<NetworkMessage>;

    /// Receive pending messages from the unreliable channel (non-blocking).
    fn receive_unreliable(&mut self) -> Vec<NetworkMessage>;

    /// Wait for a single response on the reliable channel (blocking with timeout).
    fn wait_for_response_reliable(&mut self) -> Result<NetworkMessage, NetworkError>;

    /// Disconnect the transport gracefully.
    fn disconnect(&mut self) {
    }

    /// Whether the transport is currently connected.
    fn is_connected(&self) -> (r: bool)
        default_ensures
            r,
    {
        true
    }

    /// The Brew protocol version the server advertised in the last connect response; 0
    /// (unknown) by default.
    fn server_brew_version(&self) -> (r: u8)
        default_ensures
            r == 0,
    {
        0
    }
}

/// How a transport is built from its configuration.
pub trait TransportFactory: NetworkTransport + Sized {
    /// Configuration type needed to construct this transport.
    type Config;

    /// Create a new transport instance from configuration.
    fn create(config: Self::Config) -> Result<Self, NetworkError>;
}

/// Channel type for QUIC streams.
#[derive(Debug, Clone, Copy, PartialEq, Eq, Structural)]
pub enum QuicChannelType {
    /// Reliable ordered channel for signalling
    Reliable,
    /// Unreliable unordered channel for voice (low latency)
    Unreliable,
}

/// `host:port` for a TCP or UDP address; a custom address has none.
pub open spec fn spec_socket_addr_text(addr: NetworkAddress) -> Option<Seq<char>> {
    match addr {
        NetworkAddress::Tcp { host, port } => Some(host@ + seq![':'] + dec(port as nat)),
        NetworkAddress::Udp { host, port } => Some(host@ + seq![':'] + dec(port as nat)),
        NetworkAddress::Custom { .. } => None,
    }
}

/// The `host:port` text a QUIC transport resolves to its socket address; a custom address
/// is refused.
pub fn socket_addr_text(addr: &NetworkAddress) -> (r: Result<String, NetworkError>)
    ensures
        match r {
            Ok(t) => spec_socket_addr_text(*addr) == Some(t@),
            Err(e) => spec_socket_addr_text(*addr) is None && (e matches NetworkError::ConnectionFailed(m)
                && m@ == "Custom addresses not supported for QUIC"@),
        },
{
    match addr {
        NetworkAddress::Tcp { host, port } | NetworkAddress::Udp { host, port } => {
            let mut m = chars_of(host.as_str());
            m.push(':');
            append_chars(&mut m, dec_chars(*port as u64).as_slice());
            Ok(string_of(m.as_slice()))
        },
        NetworkAddress::Custom { .. } => Err(
            NetworkError::ConnectionFailed(string_of(chars_of("Custom addresses not supported for QUIC").as_slice())),
        ),
    }
}

/// The host a TCP or UDP address names (the server name for TLS); a custom address is
/// refused.
pub fn server_name(addr: &NetworkAddress) -> (r: Result<String, NetworkError>)
    ensures
        match *addr {
            NetworkAddress::Tcp { host, .. } => r matches Ok(h) && h@ == host@,
            NetworkAddress::Udp { host, .. } => r matches Ok(h) && h@ == host@,
            NetworkAddress::Custom { .. } => r matches Err(NetworkError::ConnectionFailed(m))
                && m@ == "Invalid address type"@,
        },
{
    match addr {
        NetworkAddress::Tcp { host, .. } | NetworkAddress::Udp { host, .. } => Ok(
            string_of(chars_of(host.as_str()).as_slice()),
        ),
        NetworkAddress::Custom { .. } => Err(
            NetworkError::ConnectionFailed(string_of(chars_of("Invalid address type").as_slice())),
        ),
    }
}

/// Most bytes the reliable receive buffer may hold before the stream counts as desynced.
pub const RX_BUFFER_LIMIT: usize = 2097152;

/// The error text of an over-full receive buffer.
pub open spec fn buffer_reset_msg() -> Seq<char> {
    "reliable stream desynced, buffer reset"@
}

/// One receive on the reliable stream, given what was buffered, the decoded frames not
/// yet handed out, and what the read brought (`None` when it brought nothing): the frame
/// handed out (or the error text), and the new buffer and pending frames.
///
/// The bytes read are appended to the buffer; if that makes it longer than the limit, it
/// is cleared and the stream reported desynced. Otherwise every complete frame is decoded
/// and queued behind the pending ones (a desynced length prefix clears the buffer and is
/// reported), and the first pending frame is handed out.
pub open spec fn spec_receive(buf: Seq<u8>, pending: Seq<Seq<u8>>, read: Option<Seq<u8>>) -> (
    Result<Option<Seq<u8>>, Seq<char>>,
    Seq<u8>,
    Seq<Seq<u8>>,
) {
    let b1 = match read {
        Some(c) => buf + c,
        None => buf,
    };
    if read is Some && b1.len() > RX_BUFFER_LIMIT {
        (Err(buffer_reset_msg()), Seq::empty(), pending)
    } else {
        match spec_drain(b1).0 {
            Err(e) => (Err(e), Seq::empty(), pending),
            Ok(fs) => {
                let p2 = pending + fs;
                if p2.len() == 0 {
                    (Ok(None), spec_drain(b1).1, p2)
                } else {
                    (Ok(Some(p2[0])), spec_drain(b1).1, p2.drop_first())
                }
            },
        }
    }
}

/// The receive side of a length-prefixed reliable stream.
pub struct ReliableRx {
    /// Bytes read that do not yet form a complete frame. Kept across reads: a read that is
    /// cut short must not lose what it already consumed, or the framing never recovers.
    buf: Vec<u8>,
    /// Frames decoded but not yet handed out (one receive hands out one).
    pending: VecDeque<Vec<u8>>,
}

impl ReliableRx {
    /// The buffered bytes.
    pub closed spec fn view_buf(&self) -> Seq<u8> {
        self.buf@
    }

    /// The frames waiting to be handed out, first one first.
    pub closed spec fn view_pending(&self) -> Seq<Seq<u8>> {
        byte_views(self.pending@)
    }

    /// Nothing buffered, nothing pending.
    pub fn new() -> (r: Self)
        ensures
            r.view_buf() == Seq::<u8>::empty(),
            r.view_pending() == Seq::<Seq<u8>>::empty(),
    {
        let r = ReliableRx { buf: Vec::new(), pending: VecDeque::new() };
        assert(byte_views(r.pending@) =~= Seq::<Seq<u8>>::empty());
        r
    }

    /// Hand out the first decoded frame, if one is waiting (before reading again).
    pub fn pending_frame(&mut self) -> (r: Option<Vec<u8>>)
        ensures
            final(self).view_buf() == old(self).view_buf(),
            old(self).view_pending().len() == 0 ==> r is None && final(self).view_pending() == old(self).view_pending(),
            old(self).view_pending().len() > 0 ==> (r matches Some(f) && f@ == old(self).view_pending()[0])
                && final(self).view_pending() == old(self).view_pending().drop_first(),
    {
        let ghost before = self.pending@;
        let r = self.pending.pop_front();
        proof {
            if before.len() > 0 {
                assert(byte_views(self.pending@) =~= byte_views(before).drop_first());
            } else {
                assert(self.pending@ =~= before);
            }
        }
        r
    }

    /// One receive after a read (see [`spec_receive`]); `read` is what the read brought.
    pub fn receive_from_channel(&mut self, read: Option<&[u8]>) -> (r: Result<Option<Vec<u8>>, NetworkError>)
        ensures
            ({
                let (sr, b2, p2) = spec_receive(
                    old(self).view_buf(),
                    old(self).view_pending(),
                    match read {
                        Some(c) => Some(c@),
                        None => None,
                    },
                );
                &&& final(self).view_buf() == b2
                &&& final(self).view_pending() == p2
                &&& match r {
                    Ok(Some(f)) => sr == Ok::<Option<Seq<u8>>, Seq<char>>(Some(f@)),
                    Ok(None) => sr == Ok::<Option<Seq<u8>>, Seq<char>>(None),
                    Err(NetworkError::ReceiveFailed(m)) => sr == Err::<Option<Seq<u8>>, Seq<char>>(m@),
                    Err(_) => false,
                }
            }),
    {
        let ghost pend0 = byte_views(self.pending@);
        let ghost rd: Option<Seq<u8>> = match read {
            Some(c) => Some(c@),
            None => None,
        };
        if let Some(chunk) = read {
            let mut i: usize = 0;
            let ghost b0 = self.buf@;
            while i < chunk.len()
                invariant
                    i <= chunk.len(),
                    self.buf@ == b0 + chunk@.subrange(0, i as int),
                    self.pending@ == old(self).pending@,
                decreases chunk.len() - i,
            {
                self.buf.push(chunk[i]);
                assert(b0 + chunk@.subrange(0, i + 1) =~= (b0 + chunk@.subrange(0, i as int)).push(chunk@[i as int]));
                i += 1;
            }
            assert(chunk@.subrange(0, chunk@.len() as int) =~= chunk@);
            if self.buf.len() > RX_BUFFER_LIMIT {
                self.buf = Vec::new();
                let r = Err(NetworkError::ReceiveFailed(string_of(chars_of("reliable stream desynced, buffer reset").as_slice())));
                assert(self.buf@ =~= Seq::<u8>::empty());
                return r;
            }
        }
        let ghost b1 = self.buf@;
        assert(b1 == match rd {
            Some(c) => old(self).buf@ + c,
            None => old(self).buf@,
        });
        assert(!(rd is Some && b1.len() > RX_BUFFER_LIMIT));
        match drain_length_prefixed(&mut self.buf) {
            Ok(frames) => {
                let mut k: usize = 0;
                while k < frames.len()
                    invariant
                        k <= frames.len(),
                        byte_views(self.pending@) == pend0 + byte_views(frames@).subrange(0, k as int),
                        self.buf@ == spec_drain(b1).1,
                    decreases frames.len() - k,
                {
                    let f = frames[k].clone();
                    let ghost before = self.pending@;
                    self.pending.push_back(f);
                    assert(byte_views(self.pending@) =~= byte_views(before).push(f@));
                    assert(pend0 + byte_views(frames@).subrange(0, k + 1) =~= (pend0 + byte_views(
                        frames@,
                    ).subrange(0, k as int)).push(frames@[k as int]@));
                    k += 1;
                }
                assert(byte_views(frames@).subrange(0, frames@.len() as int) =~= byte_views(frames@));
                let ghost full_raw = self.pending@;
                assert(byte_views(full_raw) == pend0 + spec_drain(b1).0->Ok_0);
                let out = self.pending.pop_front();
                proof {
                    if full_raw.len() > 0 {
                        assert(byte_views(self.pending@) =~= byte_views(full_raw).drop_first());
                        assert(out matches Some(f) && f@ == byte_views(full_raw)[0]);
                    } else {
                        assert(self.pending@ =~= full_raw);
                    }
                }
                assert(self.buf@ == spec_drain(b1).1);
                Ok(out)
            },
            Err(e) => {
                self.buf = Vec::new();
                assert(self.buf@ =~= Seq::<u8>::empty());
                Err(NetworkError::ReceiveFailed(e))
            },
        }
    }

    /// Forget everything buffered and pending: the stream they came from was closed.
    pub fn close_reliable_stream(&mut self)
        ensures
            final(self).view_buf() == Seq::<u8>::empty(),
            final(self).view_pending() == Seq::<Seq<u8>>::empty(),
    {
        self.buf = Vec::new();
        self.pending = VecDeque::new();
        assert(byte_views(self.pending@) =~= Seq::<Seq<u8>>::empty());
    }
}

/// Frames are handed out in the order the stream carries them, none lost or repeated,
/// however the reads split it: if the frames handed out so far, followed by those pending,
/// are the frames of all bytes read so far (with the buffer holding the rest), then after
/// one more successful receive the same holds of all bytes read including the new ones.
pub proof fn lemma_receive_keeps_stream_order(
    all: Seq<u8>,
    delivered: Seq<Seq<u8>>,
    buf: Seq<u8>,
    pending: Seq<Seq<u8>>,
    chunk: Option<Seq<u8>>,
)
    requires
        spec_drain(all) == (Ok::<Seq<Seq<u8>>, Seq<char>>(delivered + pending), buf),
        spec_receive(buf, pending, chunk).0 is Ok,
    ensures
        ({
            let (r, b2, p2) = spec_receive(buf, pending, chunk);
            let all2 = match chunk {
                Some(c) => all + c,
                None => all,
            };
            let handed = match r->Ok_0 {
                Some(f) => seq![f],
                None => Seq::empty(),
            };
            spec_drain(all2) == (Ok::<Seq<Seq<u8>>, Seq<char>>(delivered + handed + p2), b2)
        }),
{
    let c = match chunk {
        Some(c) => c,
        None => Seq::empty(),
    };
    crate::framing::lemma_drain_split(all, c);
    assert(all + c == match chunk {
        Some(c) => all + c,
        None => all,
    }) by {
        if chunk is None {
            assert(all + Seq::<u8>::empty() =~= all);
        }
    }
    assert(buf + c == match chunk {
        Some(c) => buf + c,
        None => buf,
    }) by {
        if chunk is None {
            assert(buf + Seq::<u8>::empty() =~= buf);
        }
    }
    let fs = spec_drain(buf + c).0->Ok_0;
    let p2 = pending + fs;
    if p2.len() == 0 {
        assert(delivered + pending + fs =~= delivered + Seq::<Seq<u8>>::empty() + p2);
    } else {
        assert(delivered + pending + fs =~= delivered + seq![p2[0]] + p2.drop_first());
    }
}

} // verus!
