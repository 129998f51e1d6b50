//! Packets over QUIC streams: how they are framed, which stream they take,
//! and what the ends of a connection mean.
use crate::text::{lossy_string, lossy_utf8};
use std::collections::VecDeque;
use vstd::bytes::{
    lemma_auto_spec_u64_to_from_le_bytes, spec_u64_from_le_bytes, spec_u64_to_le_bytes,
    u64_from_le_bytes, u64_to_le_bytes,
};
use vstd::prelude::*;

verus! {

/// The bytes of a frame's header: the length of the packet.
pub const HEADER: usize = 8;

/// A packet on a stream: its length, and its bytes.
pub open spec fn framed(packet: Seq<u8>) -> Seq<u8> {
    spec_u64_to_le_bytes(packet.len() as u64) + packet
}

/// Frames a packet.
pub fn frame(packet: &Vec<u8>) -> (r: Vec<u8>)
    ensures
        r@ == framed(packet@),
{
    let mut r = u64_to_le_bytes(packet.len() as u64);
    let ghost head = r@;
    let mut i: usize = 0;
    assert(r@ =~= head + packet@.take(0));
    while i < packet.len()
        invariant
            i <= packet.len(),
            r@ == head + packet@.take(i as int),
        decreases packet.len() - i,
    {
        r.push(packet[i]);
        i += 1;
        assert(r@ =~= head + packet@.take(i as int));
    }
    assert(packet@.take(i as int) =~= packet@);
    r
}

/// What stands at the start of a stream.
#[derive(Clone, Copy, Debug, PartialEq, Eq, Structural)]
pub enum NextFrame {
    /// More bytes must arrive.
    Incomplete,
    /// A packet that is longer than the stream window.
    TooLong,
    /// A packet of so many bytes after the header.
    Packet { len: usize },
}

/// What stands at the start of a stream.
pub open spec fn first_frame(stream: Seq<u8>, window: usize) -> NextFrame {
    if stream.len() < HEADER {
        NextFrame::Incomplete
    } else {
        let len = spec_u64_from_le_bytes(stream.take(HEADER as int));
        if len > window {
            NextFrame::TooLong
        } else if stream.len() - HEADER < len {
            NextFrame::Incomplete
        } else {
            NextFrame::Packet { len: len as usize }
        }
    }
}

/// The length of the packet that a header announces, unless it is longer than
/// the stream window.
pub fn packet_len(header: &[u8], window: usize) -> (r: Option<usize>)
    requires
        header@.len() == HEADER,
    ensures
        r == if spec_u64_from_le_bytes(header@) > window {
            None::<usize>
        } else {
            Some(spec_u64_from_le_bytes(header@) as usize)
        },
{
    let len: u64 = u64_from_le_bytes(header);
    if len > window as u64 {
        None
    } else {
        Some(len as usize)
    }
}

/// Looks at the start of a stream.
pub fn next_frame(stream: &[u8], window: usize) -> (r: NextFrame)
    ensures
        r == first_frame(stream@, window),
{
    if stream.len() < HEADER {
        return NextFrame::Incomplete;
    }
    let header = vstd::slice::slice_subrange(stream, 0, HEADER);
    assert(header@ =~= stream@.take(HEADER as int));
    match packet_len(header, window) {
        None => NextFrame::TooLong,
        Some(len) => if stream.len() - HEADER < len {
            NextFrame::Incomplete
        } else {
            NextFrame::Packet { len }
        },
    }
}

/// The packets of a stream, up to the first frame that is not complete or too
/// long.
pub open spec fn packets_of(stream: Seq<u8>, window: usize) -> Seq<Seq<u8>>
    decreases stream.len(),
{
    match first_frame(stream, window) {
        NextFrame::Packet { len } => seq![stream.subrange(HEADER as int, HEADER + len)]
            + packets_of(stream.skip(HEADER + len), window),
        _ => seq![],
    }
}

/// Packets one after the other on a stream.
pub open spec fn stream_of(packets: Seq<Seq<u8>>) -> Seq<u8>
    decreases packets.len(),
{
    if packets.len() == 0 {
        seq![]
    } else {
        framed(packets[0]) + stream_of(packets.drop_first())
    }
}

/// Packets that fit the stream window arrive as they were sent, in order.
pub proof fn packets_arrive_in_order(packets: Seq<Seq<u8>>, window: usize)
    requires
        forall|i: int| 0 <= i < packets.len() ==> (#[trigger] packets[i]).len() <= window,
    ensures
        packets_of(stream_of(packets), window) == packets,
    decreases packets.len(),
{
    let stream = stream_of(packets);
    if packets.len() == 0 {
        assert(packets_of(stream, window) =~= packets);
    } else {
        let first = packets[0];
        let rest = packets.drop_first();
        lemma_auto_spec_u64_to_from_le_bytes();
        let header = spec_u64_to_le_bytes(first.len() as u64);
        assert(header.len() == HEADER);
        assert(stream.take(HEADER as int) =~= header);
        assert(first_frame(stream, window) == (NextFrame::Packet { len: first.len() as usize }));
        assert(stream.subrange(HEADER as int, HEADER + first.len()) =~= first);
        assert(stream.skip(HEADER + first.len()) =~= stream_of(rest));
        packets_arrive_in_order(rest, window);
        assert(packets =~= seq![first] + rest);
    }
}

/// The channels of packets that arrive in the order that they were sent.
#[derive(Clone, Copy, Debug, PartialEq, Eq, Structural)]
pub enum NetworkInOrderChannel {
    Global,
    Custom(u64),
}

/// The packets that wait on a channel.
pub struct ChannelQueue {
    pub channel: NetworkInOrderChannel,
    pub packets: VecDeque<Vec<u8>>,
}

/// The channels of a connection, with the packets that wait on them.
pub struct Channels {
    pub queues: Vec<ChannelQueue>,
}

/// Why no packet is sent.
#[derive(Clone, Copy, Debug, PartialEq, Eq, Structural)]
pub enum ChannelError {
    NoPacket,
    NoChannel,
}

impl View for ChannelQueue {
    type V = (NetworkInOrderChannel, Seq<Seq<u8>>);

    open spec fn view(&self) -> (NetworkInOrderChannel, Seq<Seq<u8>>) {
        (self.channel, self.packets@.map_values(|p: Vec<u8>| p@))
    }
}

impl View for Channels {
    type V = Seq<(NetworkInOrderChannel, Seq<Seq<u8>>)>;

    open spec fn view(&self) -> Seq<(NetworkInOrderChannel, Seq<Seq<u8>>)> {
        self.queues@.map_values(|q: ChannelQueue| q@)
    }
}

/// Every channel is there once.
pub open spec fn channels_valid(channels: Seq<(NetworkInOrderChannel, Seq<Seq<u8>>)>) -> bool {
    forall|i: int, j: int|
        0 <= i < j < channels.len() ==> (#[trigger] channels[i]).0 != (#[trigger] channels[j]).0
}

/// The place of a channel, or the number of channels.
pub open spec fn channel_index(
    channels: Seq<(NetworkInOrderChannel, Seq<Seq<u8>>)>,
    channel: NetworkInOrderChannel,
) -> int
    decreases channels.len(),
{
    if channels.len() == 0 || channels[0].0 == channel {
        0
    } else {
        1 + channel_index(channels.drop_first(), channel)
    }
}

/// The channel exists.
pub open spec fn has_channel(
    channels: Seq<(NetworkInOrderChannel, Seq<Seq<u8>>)>,
    channel: NetworkInOrderChannel,
) -> bool {
    channel_index(channels, channel) < channels.len()
}

/// The channel that a packet takes: the one it asks for, or the global one
/// once the limit is reached. Room for the global one is kept free.
pub open spec fn chosen_channel(
    channels: Seq<(NetworkInOrderChannel, Seq<Seq<u8>>)>,
    channel: NetworkInOrderChannel,
    limit: usize,
) -> NetworkInOrderChannel {
    let reserved = if has_channel(channels, NetworkInOrderChannel::Global) {
        0int
    } else {
        1
    };
    if channels.len() >= limit - reserved {
        NetworkInOrderChannel::Global
    } else {
        channel
    }
}

/// The channels after a packet was put on one.
pub open spec fn with_packet(
    channels: Seq<(NetworkInOrderChannel, Seq<Seq<u8>>)>,
    channel: NetworkInOrderChannel,
    packet: Seq<u8>,
) -> Seq<(NetworkInOrderChannel, Seq<Seq<u8>>)> {
    let i = channel_index(channels, channel);
    if i < channels.len() {
        channels.update(i, (channel, channels[i].1.push(packet)))
    } else {
        channels.push((channel, seq![packet]))
    }
}

/// The channel that is sent from: the one that is asked for, or the global
/// one if that does not exist.
pub open spec fn sending_channel(
    channels: Seq<(NetworkInOrderChannel, Seq<Seq<u8>>)>,
    channel: NetworkInOrderChannel,
) -> int {
    if has_channel(channels, channel) {
        channel_index(channels, channel)
    } else {
        channel_index(channels, NetworkInOrderChannel::Global)
    }
}

proof fn lemma_channel_index(
    channels: Seq<(NetworkInOrderChannel, Seq<Seq<u8>>)>,
    channel: NetworkInOrderChannel,
)
    ensures
        0 <= channel_index(channels, channel) <= channels.len(),
        has_channel(channels, channel) ==> channels[channel_index(channels, channel)].0 == channel,
        !has_channel(channels, channel) ==> forall|i: int|
            0 <= i < channels.len() ==> (#[trigger] channels[i]).0 != channel,
    decreases channels.len(),
{
    if channels.len() > 0 && channels[0].0 != channel {
        let rest = channels.drop_first();
        lemma_channel_index(rest, channel);
        if !has_channel(channels, channel) {
            assert forall|i: int| 0 <= i < channels.len() implies (#[trigger] channels[i]).0
                != channel by {
                if i > 0 {
                    assert(rest[i - 1] == channels[i]);
                }
            }
        }
    }
}

impl Channels {
    /// No channels.
    pub fn new() -> (r: Self)
        ensures
            r@.len() == 0,
            channels_valid(r@),
    {
        Channels { queues: Vec::new() }
    }

    fn index(&self, channel: NetworkInOrderChannel) -> (r: usize)
        ensures
            r == channel_index(self@, channel),
            r <= self.queues.len(),
    {
        let mut i: usize = 0;
        assert(self@.skip(0) =~= self@);
        while i < self.queues.len()
            invariant
                i <= self.queues.len(),
                channel_index(self@, channel) == i + channel_index(self@.skip(i as int), channel),
            decreases self.queues.len() - i,
        {
            assert(self@.skip(i as int)[0] == self.queues@[i as int]@);
            assert(self@.skip(i as int).drop_first() =~= self@.skip(i + 1));
            if self.queues[i].channel == channel {
                return i;
            }
            i += 1;
        }
        i
    }

    /// Puts a packet on a channel. At most `limit` channels are used.
    pub fn push(&mut self, packet: Vec<u8>, channel: NetworkInOrderChannel, limit: usize)
        requires
            limit > 0,
        ensures
            final(self)@ == with_packet(
                old(self)@,
                chosen_channel(old(self)@, channel, limit),
                packet@,
            ),
            channels_valid(old(self)@) ==> channels_valid(final(self)@),
    {
        let reserved: usize = if self.index(NetworkInOrderChannel::Global) < self.queues.len() {
            0
        } else {
            1
        };
        let channel = if self.queues.len() >= limit - reserved {
            NetworkInOrderChannel::Global
        } else {
            channel
        };
        let i = self.index(channel);
        proof {
            lemma_channel_index(self@, channel);
        }
        if i < self.queues.len() {
            let ghost before = self.queues@[i as int].packets@;
            self.queues[i].packets.push_back(packet);
            assert(self.queues@[i as int].packets@.map_values(|p: Vec<u8>| p@)
                =~= before.map_values(|p: Vec<u8>| p@).push(packet@));
        } else {
            let mut packets: VecDeque<Vec<u8>> = VecDeque::new();
            packets.push_back(packet);
            assert(packets@.map_values(|p: Vec<u8>| p@) =~= seq![packet@]);
            self.queues.push(ChannelQueue { channel, packets });
        }
        assert(self@ =~= with_packet(old(self)@, channel, packet@));
    }

    /// The channel that is sent from when the given one is asked for, if there
    /// is one.
    pub fn sending(&self, channel: NetworkInOrderChannel) -> (r: Option<NetworkInOrderChannel>)
        ensures
            r == if sending_channel(self@, channel) < self@.len() {
                Some(self@[sending_channel(self@, channel)].0)
            } else {
                None
            },
            r matches Some(from) ==> has_channel(self@, from) && sending_channel(self@, from)
                == sending_channel(self@, channel),
    {
        proof {
            lemma_channel_index(self@, channel);
            lemma_channel_index(self@, NetworkInOrderChannel::Global);
        }
        if self.index(channel) < self.queues.len() {
            Some(channel)
        } else if self.index(NetworkInOrderChannel::Global) < self.queues.len() {
            Some(NetworkInOrderChannel::Global)
        } else {
            None
        }
    }

    /// Takes the next packet of a channel.
    pub fn pop(&mut self, channel: NetworkInOrderChannel) -> (r: Result<Vec<u8>, ChannelError>)
        ensures
            ({
                let channels = old(self)@;
                let i = sending_channel(channels, channel);
                if i >= channels.len() {
                    &&& r is Err && r->Err_0 == ChannelError::NoChannel
                    &&& final(self)@ == channels
                } else if channels[i].1.len() == 0 {
                    &&& r is Err && r->Err_0 == ChannelError::NoPacket
                    &&& final(self)@ == channels
                } else {
                    &&& r is Ok && r->Ok_0@ == channels[i].1[0]
                    &&& final(self)@ == channels.update(
                        i,
                        (channels[i].0, channels[i].1.drop_first()),
                    )
                }
            }),
            channels_valid(old(self)@) ==> channels_valid(final(self)@),
    {
        let mut i = self.index(channel);
        if i >= self.queues.len() {
            i = self.index(NetworkInOrderChannel::Global);
        }
        if i >= self.queues.len() {
            return Err(ChannelError::NoChannel);
        }
        let ghost before = self.queues@[i as int].packets@;
        assert(self@[i as int].1 == before.map_values(|p: Vec<u8>| p@));
        match self.queues[i].packets.pop_front() {
            Some(packet) => {
                assert(self.queues@[i as int].packets@.map_values(|p: Vec<u8>| p@)
                    =~= before.map_values(|p: Vec<u8>| p@).drop_first());
                assert(self@ =~= old(self)@.update(
                    i as int,
                    (old(self)@[i as int].0, old(self)@[i as int].1.drop_first()),
                ));
                Ok(packet)
            },
            None => {
                assert(self@ =~= old(self)@);
                Err(ChannelError::NoPacket)
            },
        }
    }
}

/// There is room for the global channel.
pub open spec fn within_limit(
    channels: Seq<(NetworkInOrderChannel, Seq<Seq<u8>>)>,
    limit: usize,
) -> bool {
    channels.len() + (if has_channel(channels, NetworkInOrderChannel::Global) {
        0int
    } else {
        1
    }) <= limit
}

/// The limit on channels holds whatever is sent, and there is always room for
/// the global one.
pub proof fn channels_stay_within_limit(
    channels: Seq<(NetworkInOrderChannel, Seq<Seq<u8>>)>,
    channel: NetworkInOrderChannel,
    packet: Seq<u8>,
    limit: usize,
)
    requires
        within_limit(channels, limit),
    ensures
        within_limit(
            with_packet(channels, chosen_channel(channels, channel, limit), packet),
            limit,
        ),
{
    let global = NetworkInOrderChannel::Global;
    let chosen = chosen_channel(channels, channel, limit);
    let after = with_packet(channels, chosen, packet);
    lemma_channel_index(channels, chosen);
    lemma_channel_index(channels, global);
    lemma_channel_index(after, global);
    let i = channel_index(channels, chosen);
    if has_channel(channels, global) {
        let g = channel_index(channels, global);
        assert(after[g].0 == global);
    }
    if chosen == global {
        assert(after[i].0 == global);
    }
}

/// The codes that a connection is closed with.
#[derive(Clone, Copy, Debug, PartialEq, Eq, Structural)]
pub enum ConnectionErrorCode {
    Kicked,
    Banned,
    Shutdown,
}

/// Why a connection attempt failed, as the transport tells it. `code` is the
/// peer's code, if it is a known one.
#[derive(Clone, Debug, PartialEq, Eq)]
pub enum ConnectError {
    Transport { message: String },
    ConnectionClosed { message: String },
    ApplicationClosed { code: Option<ConnectionErrorCode>, reason: Vec<u8> },
    Reset,
    TimedOut,
    LocallyClosed,
}

/// How a connection was closed.
#[derive(Clone, Debug, PartialEq, Eq)]
pub enum Closed<T> {
    Kicked(T),
    Banned(T),
    Shutdown(T),
    Reset,
    Other(T),
}

/// Why a connection attempt failed.
#[derive(Clone, Debug, PartialEq, Eq)]
pub enum ConnectFailure<T> {
    ConnectionClosed(Closed<T>),
    TimedOut,
    LocallyClosed,
    Other(T),
}

impl View for Closed<String> {
    type V = Closed<Seq<char>>;

    open spec fn view(&self) -> Closed<Seq<char>> {
        match self {
            Closed::Kicked(reason) => Closed::Kicked(reason@),
            Closed::Banned(reason) => Closed::Banned(reason@),
            Closed::Shutdown(reason) => Closed::Shutdown(reason@),
            Closed::Reset => Closed::Reset,
            Closed::Other(reason) => Closed::Other(reason@),
        }
    }
}

impl View for ConnectFailure<String> {
    type V = ConnectFailure<Seq<char>>;

    open spec fn view(&self) -> ConnectFailure<Seq<char>> {
        match self {
            ConnectFailure::ConnectionClosed(closed) => ConnectFailure::ConnectionClosed(closed@),
            ConnectFailure::TimedOut => ConnectFailure::TimedOut,
            ConnectFailure::LocallyClosed => ConnectFailure::LocallyClosed,
            ConnectFailure::Other(message) => ConnectFailure::Other(message@),
        }
    }
}

/// What the failure of a connection attempt means.
pub open spec fn failure_of(error: ConnectError) -> ConnectFailure<Seq<char>> {
    match error {
        ConnectError::Transport { message } => ConnectFailure::Other(message@),
        ConnectError::ConnectionClosed { message } => ConnectFailure::ConnectionClosed(
            Closed::Other(message@),
        ),
        ConnectError::ApplicationClosed { code, reason } => {
            let text = lossy_utf8(reason@);
            ConnectFailure::ConnectionClosed(
                match code {
                    Some(ConnectionErrorCode::Kicked) => Closed::Kicked(text),
                    Some(ConnectionErrorCode::Banned) => Closed::Banned(text),
                    Some(ConnectionErrorCode::Shutdown) => Closed::Shutdown(text),
                    None => Closed::Other(text),
                },
            )
        },
        ConnectError::Reset => ConnectFailure::ConnectionClosed(Closed::Reset),
        ConnectError::TimedOut => ConnectFailure::TimedOut,
        ConnectError::LocallyClosed => ConnectFailure::LocallyClosed,
    }
}

/// What the failure of a connection attempt means.
pub fn connect_failure(error: ConnectError) -> (r: ConnectFailure<String>)
    ensures
        r@ == failure_of(error),
{
    match error {
        ConnectError::Transport { message } => ConnectFailure::Other(message),
        ConnectError::ConnectionClosed { message } => ConnectFailure::ConnectionClosed(
            Closed::Other(message),
        ),
        ConnectError::ApplicationClosed { code, reason } => {
            let text = lossy_string(reason.as_slice());
            ConnectFailure::ConnectionClosed(
                match code {
                    Some(ConnectionErrorCode::Kicked) => Closed::Kicked(text),
                    Some(ConnectionErrorCode::Banned) => Closed::Banned(text),
                    Some(ConnectionErrorCode::Shutdown) => Closed::Shutdown(text),
                    None => Closed::Other(text),
                },
            )
        },
        ConnectError::Reset => ConnectFailure::ConnectionClosed(Closed::Reset),
        ConnectError::TimedOut => ConnectFailure::TimedOut,
        ConnectError::LocallyClosed => ConnectFailure::LocallyClosed,
    }
}

/// Why a datagram is not sent, as the transport tells it.
#[derive(Clone, Copy, Debug, PartialEq, Eq, Structural)]
pub enum DatagramError {
    QueueAtCapacity,
    ExceedsPeerTransportLimits,
    ConnectionError,
    Other,
}

/// Why a datagram is not sent.
#[derive(Clone, Copy, Debug, PartialEq, Eq, Structural)]
pub enum UnreliableError {
    TooLarge,
    ConnectionClosed,
}

/// What the failure to send a datagram means: the connection is still there
/// if only this datagram could not be sent.
pub fn datagram_failure(error: DatagramError) -> (r: UnreliableError)
    ensures
        r == match error {
            DatagramError::QueueAtCapacity | DatagramError::ExceedsPeerTransportLimits =>
                UnreliableError::TooLarge,
            DatagramError::ConnectionError | DatagramError::Other =>
                UnreliableError::ConnectionClosed,
        },
{
    match error {
        DatagramError::QueueAtCapacity | DatagramError::ExceedsPeerTransportLimits =>
            UnreliableError::TooLarge,
        DatagramError::ConnectionError | DatagramError::Other => UnreliableError::ConnectionClosed,
    }
}

/// The window of a stream: the configured one, or 64 KiB for servers and
/// 1 MiB for clients.
pub fn stream_window(configured: Option<u32>, server: bool) -> (r: u32)
    ensures
        r == match configured {
            Some(window) => window,
            None => if server {
                0x1_0000
            } else {
                0x10_0000
            },
        },
{
    match configured {
        Some(window) => window,
        None => if server {
            0x1_0000
        } else {
            0x10_0000
        },
    }
}

/// Whether a client must prove its address before it may connect.
pub fn must_retry(retry_on_connect: bool, address_validated: bool) -> (r: bool)
    ensures
        r == (retry_on_connect && !address_validated),
{
    retry_on_connect && !address_validated
}

/// A packet is framed by its length, in eight bytes with the lowest first,
/// and stands behind it as it is.
pub proof fn packets_are_framed_by_their_length(packet: &Vec<u8>, r: Vec<u8>)
    requires
        call_ensures(frame, (packet,), r),
    ensures
        r@.len() == packet@.len() + 8,
        r@.take(8) == spec_u64_to_le_bytes(packet@.len() as u64),
        r@.skip(8) == packet@,
{
    lemma_auto_spec_u64_to_from_le_bytes();
    assert(r@.take(8) =~= spec_u64_to_le_bytes(packet@.len() as u64));
    assert(r@.skip(8) =~= packet@);
}

/// A header announces the length that was written into it, unless that is
/// longer than the window.
pub proof fn headers_announce_the_length(header: &[u8], window: usize, r: Option<usize>, n: u64)
    requires
        call_ensures(packet_len, (header, window), r),
        header@ == spec_u64_to_le_bytes(n),
    ensures
        n <= window ==> r is Some && r->0 == n,
        n > window ==> r is None,
{
    lemma_auto_spec_u64_to_from_le_bytes();
}

/// A stream that starts with a frame has its packet next, once all of it has
/// arrived. A packet that is longer than the window is refused as soon as its
/// header has arrived.
pub proof fn framed_packets_are_found(
    packet: &Vec<u8>,
    framed: Vec<u8>,
    stream: &[u8],
    window: usize,
    r: NextFrame,
)
    requires
        call_ensures(frame, (packet,), framed),
        call_ensures(next_frame, (stream, window), r),
        stream@.is_prefix_of(framed@) || framed@.is_prefix_of(stream@),
    ensures
        stream@.len() < 8 ==> r == NextFrame::Incomplete,
        stream@.len() >= 8 && packet@.len() > window ==> r == NextFrame::TooLong,
        stream@.len() >= 8 && packet@.len() <= window && stream@.len() < 8 + packet@.len() ==> r
            == NextFrame::Incomplete,
        stream@.len() >= 8 && packet@.len() <= window && stream@.len() >= 8 + packet@.len() ==> r
            == (NextFrame::Packet { len: packet@.len() as usize }),
{
    lemma_auto_spec_u64_to_from_le_bytes();
    let header = spec_u64_to_le_bytes(packet@.len() as u64);
    assert(header.len() == 8);
    assert(packet@.len() == packet.len());
    if stream@.len() >= 8 {
        assert(stream@.take(8) =~= header) by {
            assert forall|i: int| 0 <= i < 8 implies stream@[i] == header[i] by {
                assert(framed@[i] == header[i]);
            }
        }
    }
}

/// The channel has its packets at the place `i`.
pub open spec fn channel_at(c: Channels, channel: NetworkInOrderChannel, i: int) -> bool {
    &&& 0 <= i < c.queues@.len()
    &&& c.queues@[i].channel == channel
    &&& forall|k: int| 0 <= k < i ==> (#[trigger] c.queues@[k]).channel != channel
}

/// No packet was put on the channel yet.
pub open spec fn no_channel(c: Channels, channel: NetworkInOrderChannel) -> bool {
    forall|k: int| 0 <= k < c.queues@.len() ==> (#[trigger] c.queues@[k]).channel != channel
}

proof fn lemma_channel_at(c: Channels, channel: NetworkInOrderChannel, i: int)
    ensures
        c@.len() == c.queues@.len(),
        0 <= channel_index(c@, channel) <= c@.len(),
        channel_at(c, channel, i) ==> channel_index(c@, channel) == i,
        no_channel(c, channel) <==> channel_index(c@, channel) == c.queues@.len(),
{
    lemma_channel_index(c@, channel);
    let at = channel_index(c@, channel);
    assert(c@.len() == c.queues@.len());
    assert forall|k: int| 0 <= k < c.queues@.len() implies c@[k].0 == (
    #[trigger] c.queues@[k]).channel by {}
    if channel_at(c, channel, i) {
        lemma_first_channel(c@, channel, i);
    }
    if at < c.queues@.len() {
        assert(c.queues@[at].channel == channel);
    } else {
        assert forall|k: int| 0 <= k < c.queues@.len() implies (#[trigger] c.queues@[k]).channel
            != channel by {
            assert(c@[k].0 != channel);
        }
    }
}

proof fn lemma_first_channel(
    channels: Seq<(NetworkInOrderChannel, Seq<Seq<u8>>)>,
    channel: NetworkInOrderChannel,
    i: int,
)
    requires
        0 <= i < channels.len(),
        channels[i].0 == channel,
        forall|k: int| 0 <= k < i ==> (#[trigger] channels[k]).0 != channel,
    ensures
        channel_index(channels, channel) == i,
    decreases channels.len(),
{
    if i > 0 {
        assert(channels[0].0 != channel);
        let rest = channels.drop_first();
        assert forall|k: int| 0 <= k < i - 1 implies (#[trigger] rest[k]).0 != channel by {
            assert(rest[k] == channels[k + 1]);
        }
        lemma_first_channel(rest, channel, i - 1);
    }
}

/// The queues hold the same packets.
pub open spec fn same_queue(a: ChannelQueue, b: ChannelQueue) -> bool {
    &&& a.channel == b.channel
    &&& a.packets@.len() == b.packets@.len()
    &&& forall|k: int| 0 <= k < a.packets@.len() ==> (#[trigger] a.packets@[k])@ == b.packets@[k]@
}

proof fn lemma_same_queue(a: ChannelQueue, b: ChannelQueue)
    requires
        a@ == b@,
    ensures
        same_queue(a, b),
{
    assert(a@.1.len() == a.packets@.len());
    assert(b@.1.len() == b.packets@.len());
    assert forall|k: int| 0 <= k < a.packets@.len() implies (#[trigger] a.packets@[k])@
        == b.packets@[k]@ by {
        assert(a@.1[k] == a.packets@[k]@);
        assert(b@.1[k] == b.packets@[k]@);
    }
}

/// A packet is put behind those that wait on the channel that it takes: the
/// one it asks for, or the global one once the others reach the limit, which
/// keeps room for the global one. Other channels stay as they are.
pub proof fn packets_wait_behind_each_other(
    c: &mut Channels,
    packet: Vec<u8>,
    channel: NetworkInOrderChannel,
    limit: usize,
    taken: NetworkInOrderChannel,
    i: int,
    other: int,
)
    requires
        call_ensures(Channels::push, (c, packet, channel, limit), ()),
        ({
            let used = old(c).queues@.len() + if no_channel(
                *old(c),
                NetworkInOrderChannel::Global,
            ) {
                1int
            } else {
                0
            };
            taken == if used >= limit {
                NetworkInOrderChannel::Global
            } else {
                channel
            }
        }),
        channel_at(*old(c), taken, i) || (no_channel(*old(c), taken) && i
            == old(c).queues@.len()),
    ensures
        ({
            let n = old(c).queues@.len();
            let q = final(c).queues@[i];
            &&& final(c).queues@.len() == if i == n {
                n + 1
            } else {
                n
            }
            &&& q.channel == taken
            &&& q.packets@.len() > 0
            &&& q.packets@.last()@ == packet@
            &&& i == n ==> q.packets@.len() == 1
            &&& i < n ==> {
                &&& q.packets@.len() == old(c).queues@[i].packets@.len() + 1
                &&& forall|k: int|
                    0 <= k < q.packets@.len() - 1 ==> (#[trigger] q.packets@[k])@ == old(
                        c,
                    ).queues@[i].packets@[k]@
            }
            &&& 0 <= other < n && other != i ==> same_queue(
                final(c).queues@[other],
                old(c).queues@[other],
            )
        }),
{
    lemma_channel_at(*old(c), taken, i);
    lemma_channel_at(*old(c), NetworkInOrderChannel::Global, -1);
    let before = old(c)@;
    let after = final(c)@;
    let n = old(c).queues@.len() as int;
    assert(before.len() == n);
    assert(after.len() == final(c).queues@.len());
    assert(taken == chosen_channel(before, channel, limit));
    let q = final(c).queues@[i];
    assert(after[i] == q@);
    assert(q@.1.len() == q.packets@.len());
    assert(q@.1[q.packets@.len() - 1] == q.packets@[q.packets@.len() - 1]@);
    if i < n {
        let p = old(c).queues@[i];
        assert(before[i] == p@);
        assert(p@.1.len() == p.packets@.len());
        assert forall|k: int| 0 <= k < q.packets@.len() - 1 implies (#[trigger] q.packets@[k])@
            == p.packets@[k]@ by {
            assert(q@.1[k] == q.packets@[k]@);
            assert(p@.1[k] == p.packets@[k]@);
        }
    }
    if 0 <= other < n && other != i {
        assert(after[other] == final(c).queues@[other]@);
        assert(before[other] == old(c).queues@[other]@);
        lemma_same_queue(final(c).queues@[other], old(c).queues@[other]);
    }
}

/// Packets are sent from the channel that is asked for, or from the global
/// one if nothing was put on it.
pub proof fn sending_falls_back_to_the_global_channel(
    c: &Channels,
    channel: NetworkInOrderChannel,
    r: Option<NetworkInOrderChannel>,
    fresh: Channels,
)
    requires
        call_ensures(Channels::sending, (c, channel), r),
        call_ensures(Channels::new, (), fresh),
    ensures
        !no_channel(*c, channel) ==> r == Some(channel),
        no_channel(*c, channel) && !no_channel(*c, NetworkInOrderChannel::Global) ==> r == Some(
            NetworkInOrderChannel::Global,
        ),
        no_channel(*c, channel) && no_channel(*c, NetworkInOrderChannel::Global) ==> r is None,
        fresh.queues@.len() == 0,
{
    lemma_channel_at(*c, channel, -1);
    lemma_channel_at(*c, NetworkInOrderChannel::Global, -1);
    lemma_channel_index(c@, channel);
    lemma_channel_index(c@, NetworkInOrderChannel::Global);
    assert(fresh@.len() == fresh.queues@.len());
}

/// The packet that waited longest on a channel is taken first, and the others
/// stay in order.
pub proof fn packets_leave_in_order(
    c: &mut Channels,
    channel: NetworkInOrderChannel,
    r: Result<Vec<u8>, ChannelError>,
    i: int,
    other: int,
)
    requires
        call_ensures(Channels::pop, (c, channel), r),
        channel_at(*old(c), channel, i) || (no_channel(*old(c), channel) && channel_at(
            *old(c),
            NetworkInOrderChannel::Global,
            i,
        )),
    ensures
        ({
            let p = old(c).queues@[i];
            let q = final(c).queues@[i];
            &&& final(c).queues@.len() == old(c).queues@.len()
            &&& p.packets@.len() == 0 ==> r == Err::<Vec<u8>, ChannelError>(ChannelError::NoPacket)
                && same_queue(q, p)
            &&& p.packets@.len() > 0 ==> {
                &&& r matches Ok(packet)
                &&& packet@ == p.packets@[0]@
                &&& q.channel == p.channel
                &&& q.packets@.len() == p.packets@.len() - 1
                &&& forall|k: int|
                    0 <= k < q.packets@.len() ==> (#[trigger] q.packets@[k])@ == p.packets@[k + 1]@
            }
            &&& 0 <= other < old(c).queues@.len() && other != i ==> same_queue(
                final(c).queues@[other],
                old(c).queues@[other],
            )
        }),
{
    lemma_channel_at(*old(c), channel, i);
    lemma_channel_at(*old(c), NetworkInOrderChannel::Global, i);
    let before = old(c)@;
    let after = final(c)@;
    let p = old(c).queues@[i];
    assert(before.len() == old(c).queues@.len());
    assert(after.len() == final(c).queues@.len());
    assert(before[i] == p@);
    assert(p@.1.len() == p.packets@.len());
    let q = final(c).queues@[i];
    assert(after[i] == q@);
    assert(q@.1.len() == q.packets@.len());
    if p.packets@.len() == 0 {
        lemma_same_queue(q, p);
    } else {
        assert(p@.1[0] == p.packets@[0]@);
        assert forall|k: int| 0 <= k < q.packets@.len() implies (#[trigger] q.packets@[k])@
            == p.packets@[k + 1]@ by {
            assert(q@.1[k] == q.packets@[k]@);
            assert(p@.1[k + 1] == p.packets@[k + 1]@);
        }
    }
    if 0 <= other < old(c).queues@.len() && other != i {
        assert(after[other] == final(c).queues@[other]@);
        assert(before[other] == old(c).queues@[other]@);
        lemma_same_queue(final(c).queues@[other], old(c).queues@[other]);
    }
}

/// Without the channel and the global one there is nothing to send.
pub proof fn nothing_leaves_without_a_channel(
    c: &mut Channels,
    channel: NetworkInOrderChannel,
    r: Result<Vec<u8>, ChannelError>,
)
    requires
        call_ensures(Channels::pop, (c, channel), r),
        no_channel(*old(c), channel),
        no_channel(*old(c), NetworkInOrderChannel::Global),
    ensures
        r == Err::<Vec<u8>, ChannelError>(ChannelError::NoChannel),
        final(c).queues@.len() == old(c).queues@.len(),
{
    lemma_channel_at(*old(c), channel, -1);
    lemma_channel_at(*old(c), NetworkInOrderChannel::Global, -1);
    assert(old(c)@.len() == old(c).queues@.len());
    assert(final(c)@.len() == final(c).queues@.len());
}

/// A peer that closes a connection tells why by its code and its reason. Time
/// outs, resets and a close of one's own are told apart from it.
pub proof fn failures_tell_why(error: ConnectError, r: ConnectFailure<String>)
    requires
        call_ensures(connect_failure, (error,), r),
    ensures
        r is TimedOut <==> error is TimedOut,
        r is LocallyClosed <==> error is LocallyClosed,
        r is Other <==> error is Transport,
        error matches ConnectError::Transport { message } ==> (r matches ConnectFailure::Other(told)
            && told@ == message@),
        error matches ConnectError::ConnectionClosed { message } ==> (
        r matches ConnectFailure::ConnectionClosed(Closed::Other(told)) && told@ == message@),
        error is Reset ==> (r matches ConnectFailure::ConnectionClosed(Closed::Reset)),
        error matches ConnectError::ApplicationClosed { code, reason } ==> {
            let text = lossy_utf8(reason@);
            &&& r matches ConnectFailure::ConnectionClosed(closed)
            &&& code == Some(ConnectionErrorCode::Kicked) ==> (closed matches Closed::Kicked(told)
                && told@ == text)
            &&& code == Some(ConnectionErrorCode::Banned) ==> (closed matches Closed::Banned(told)
                && told@ == text)
            &&& code == Some(ConnectionErrorCode::Shutdown) ==> (closed matches Closed::Shutdown(
                told,
            ) && told@ == text)
            &&& code is None ==> (closed matches Closed::Other(told) && told@ == text)
        },
{
    match r {
        ConnectFailure::ConnectionClosed(closed) => {
            assert(r@ == ConnectFailure::ConnectionClosed(closed@));
        },
        _ => {},
    }
}

/// Only an error of the connection closes it for datagrams.
pub proof fn only_connection_errors_close(error: DatagramError, r: UnreliableError)
    requires
        call_ensures(datagram_failure, (error,), r),
    ensures
        r == UnreliableError::TooLarge <==> error == DatagramError::QueueAtCapacity || error
            == DatagramError::ExceedsPeerTransportLimits,
        r == UnreliableError::ConnectionClosed <==> error == DatagramError::ConnectionError || error
            == DatagramError::Other,
{
}

/// The configured window counts. Without one, clients take sixteen times as
/// much as servers, which take 64 KiB.
pub proof fn configured_window_counts(
    w: Option<u32>,
    server: u32,
    client: u32,
)
    requires
        call_ensures(stream_window, (w, true), server),
        call_ensures(stream_window, (w, false), client),
    ensures
        w matches Some(n) ==> server == n && client == n,
        w is None ==> server == 64 * 1024 && client == 16 * server,
{
}

/// An address must be proved exactly if that is wanted and it is not yet.
pub proof fn addresses_are_proved_once(wanted: bool, validated: bool, r: bool)
    requires
        call_ensures(must_retry, (wanted, validated), r),
    ensures
        r ==> wanted,
        r ==> !validated,
        wanted && !validated ==> r,
{
}

} // verus!
