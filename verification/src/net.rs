//! A gateway between a guest's network packets and ordinary sockets: the queues between the two,
//! the listeners that stand ready for the guest, and how bytes and datagrams are passed on.

use crate::bytes;
use crate::packets;
use crate::packets::{target_of, Target};
use std::collections::VecDeque;
use vstd::prelude::*;

verus! {

/// The largest packet.
pub const DEVICE_MTU: usize = 1600;

/// The size of a socket's buffer.
pub const SOCKET_BUFFER_SIZE: usize = 262144;

/// How many listeners stand ready for a well-known port.
pub const LISTEN_BACKLOG_PER_PORT: usize = 4;

/// How many bytes are passed on at once.
pub const CHUNK_SIZE: usize = 4096;

/// How long a UDP flow may be idle before it is given up, in milliseconds.
pub const UDP_FLOW_IDLE_TIMEOUT_MS: u64 = 30_000;

/// How long to wait for a packet when nothing else was asked for, in nanoseconds.
pub const DEFAULT_WAIT_NS: u128 = 50_000_000;

/// The packets on their way between the guest and the gateway.
#[derive(Debug, PartialEq, Eq)]
pub struct LoopbackQueue {
    pub to_gateway: VecDeque<Vec<u8>>,
    pub to_guest: VecDeque<Vec<u8>>,
}

/// The error of a read when no packet has arrived.
#[derive(Debug, Clone, Copy, PartialEq, Eq, Structural)]
pub enum ReceiveError {
    WouldBlock,
}

/// What the packets from `from` on need listeners for, in their order.
pub open spec fn targets(queue: Seq<Vec<u8>>, from: int) -> Seq<Target>
    decreases queue.len() - from,
{
    if from < 0 || from >= queue.len() {
        Seq::empty()
    } else {
        match packets::target(queue[from]@) {
            Some(t) => seq![t] + targets(queue, from + 1),
            None => targets(queue, from + 1),
        }
    }
}

/// Every queued packet that asks for a listener is served, in the order of the queue, and no other:
/// one more packet at the end of the queue adds what it asks for at the end, and nothing else.
pub proof fn law_queued_packets_are_served(queue: Seq<Vec<u8>>, packet: Vec<u8>, from: int)
    requires
        0 <= from <= queue.len(),
    ensures
        targets(Seq::<Vec<u8>>::empty(), 0).len() == 0,
        packets::target(packet@) matches Some(t) ==> targets(queue.push(packet), from) == targets(
            queue,
            from,
        ).push(t),
        packets::target(packet@) is None ==> targets(queue.push(packet), from) == targets(
            queue,
            from,
        ),
    decreases queue.len() - from,
{
    let longer = queue.push(packet);
    if from < queue.len() {
        law_queued_packets_are_served(queue, packet, from + 1);
        assert(longer[from] == queue[from]);
        if let Some(t) = packets::target(packet@) {
            assert(targets(longer, from) =~= targets(queue, from).push(t));
        }
    } else {
        assert(longer[from] == packet);
        reveal_with_fuel(targets, 3);
        if let Some(t) = packets::target(packet@) {
            assert(targets(longer, from) =~= targets(queue, from).push(t));
        }
    }
}

/// A TCP packet of the guest that waits in the queue has a listener made for its port.
pub proof fn law_queued_port_is_listened_to(queue: Seq<Vec<u8>>, k: int, from: int)
    requires
        0 <= from <= k < queue.len(),
        packets::target(queue[k]@) is Some,
    ensures
        targets(queue, from).contains(packets::target(queue[k]@)->0),
    decreases k - from,
{
    let t = packets::target(queue[k]@)->0;
    let all = targets(queue, from);
    let rest = targets(queue, from + 1);
    if from == k {
        assert(all[0] == t);
    } else {
        law_queued_port_is_listened_to(queue, k, from + 1);
        let j = choose|j: int| 0 <= j < rest.len() && rest[j] == t;
        if packets::target(queue[from]@) is Some {
            assert(all[j + 1] == t);
        } else {
            assert(all[j] == t);
        }
    }
}

/// The smaller of two lengths.
pub open spec fn shorter(a: nat, b: nat) -> nat {
    if a <= b {
        a
    } else {
        b
    }
}

impl LoopbackQueue {
    /// No packets.
    pub fn new() -> (r: Self)
        ensures
            r.to_gateway@ == Seq::<Vec<u8>>::empty(),
            r.to_guest@ == Seq::<Vec<u8>>::empty(),
    {
        LoopbackQueue { to_gateway: VecDeque::new(), to_guest: VecDeque::new() }
    }

    /// Sends a packet of the guest on its way, behind all others.
    pub fn send_ip_packet(&mut self, packet: &[u8])
        ensures
            final(self).to_gateway@.len() == old(self).to_gateway@.len() + 1,
            final(self).to_gateway@.drop_last() == old(self).to_gateway@,
            final(self).to_gateway@.last()@ == packet@,
            final(self).to_guest@ == old(self).to_guest@,
    {
        let mut copy: Vec<u8> = Vec::new();
        bytes::push_all(&mut copy, packet);
        assert(copy@ =~= packet@);
        self.to_gateway.push_back(copy);
        assert(self.to_gateway@.drop_last() =~= old(self).to_gateway@);
    }

    /// Takes the oldest packet for the gateway.
    pub fn receive(&mut self) -> (r: Option<Vec<u8>>)
        ensures
            final(self).to_guest@ == old(self).to_guest@,
            match r {
                Some(packet) => old(self).to_gateway@.len() > 0 && packet
                    == old(self).to_gateway@[0] && final(self).to_gateway@
                    == old(self).to_gateway@.skip(1),
                None => old(self).to_gateway@.len() == 0 && final(self).to_gateway@
                    == old(self).to_gateway@,
            },
    {
        let r = self.to_gateway.pop_front();
        proof {
            if r is Some {
                assert(self.to_gateway@ =~= old(self).to_gateway@.skip(1));
            }
        }
        r
    }

    /// Sends a packet of the gateway on its way, behind all others.
    pub fn transmit(&mut self, packet: Vec<u8>)
        ensures
            final(self).to_guest@ == old(self).to_guest@.push(packet),
            final(self).to_gateway@ == old(self).to_gateway@,
    {
        self.to_guest.push_back(packet);
    }

    /// Takes the oldest packet for the guest into `buf`, which stays as long as it is. What does not
    /// fit is lost. Returns how many bytes were taken.
    pub fn receive_ip_packet(&mut self, buf: &mut Vec<u8>) -> (r: Result<usize, ReceiveError>)
        ensures
            final(self).to_gateway@ == old(self).to_gateway@,
            match r {
                Err(_) => old(self).to_guest@.len() == 0 && final(self).to_guest@
                    == old(self).to_guest@ && final(buf)@ == old(buf)@,
                Ok(n) => {
                    let packet = old(self).to_guest@[0]@;
                    &&& old(self).to_guest@.len() > 0
                    &&& final(self).to_guest@ == old(self).to_guest@.skip(1)
                    &&& n == shorter(packet.len(), old(buf)@.len())
                    &&& final(buf)@ == packet.take(n as int) + old(buf)@.skip(n as int)
                },
            },
    {
        let packet = match self.to_guest.pop_front() {
            None => {
                return Err(ReceiveError::WouldBlock);
            },
            Some(packet) => packet,
        };
        assert(self.to_guest@ =~= old(self).to_guest@.skip(1));
        let n: usize = if packet.len() <= buf.len() {
            packet.len()
        } else {
            buf.len()
        };
        let ghost before = buf@;
        let mut i: usize = 0;
        while i < n
            invariant
                i <= n,
                n <= packet@.len(),
                n <= before.len(),
                buf@ =~= packet@.take(i as int) + before.skip(i as int),
            decreases n - i,
        {
            buf.set(i, packet[i]);
            i = i + 1;
        }
        Ok(n)
    }

    /// What the packets for the gateway need listeners for, in their order.
    pub fn ensure_listeners_for_queued_packets(&self) -> (r: Vec<Target>)
        ensures
            r@ == targets(self.to_gateway@, 0),
    {
        let mut out: Vec<Target> = Vec::new();
        let len: usize = self.to_gateway.len();
        let mut i: usize = 0;
        assert(out@ + targets(self.to_gateway@, 0) =~= targets(self.to_gateway@, 0));
        while i < len
            invariant
                i <= len,
                len == self.to_gateway@.len(),
                out@ + targets(self.to_gateway@, i as int) == targets(self.to_gateway@, 0),
            decreases len - i,
        {
            let ghost before = out@;
            let ghost rest = targets(self.to_gateway@, i + 1);
            match target_of(self.to_gateway[i].as_slice()) {
                Some(t) => {
                    out.push(t);
                    assert(before + (seq![t] + rest) =~= out@ + rest);
                },
                None => {},
            }
            i = i + 1;
        }
        assert(out@ + targets(self.to_gateway@, i as int) =~= out@);
        out
    }

    /// How long to wait for a packet to the guest, in nanoseconds: not at all if there is one. Each
    /// wake is judged by [`LoopbackQueue::on_tun_wake`].
    pub fn wait_on_tun(&self, timeout_ns: Option<u128>) -> (r: Option<u128>)
        ensures
            r == if self.to_guest@.len() > 0 {
                None
            } else {
                Some(wait_limit(timeout_ns))
            },
    {
        if self.to_guest.len() > 0 {
            return None;
        }
        match timeout_ns {
            Some(t) => Some(t),
            None => Some(DEFAULT_WAIT_NS),
        }
    }

    /// How long to wait on, after a wait of `left_ns` was asked for and ended after `waited_ns`: not
    /// at all if a packet is there or the time has passed, and else for the rest of it.
    pub fn on_tun_wake(&self, left_ns: u128, waited_ns: u128) -> (r: Option<u128>)
        ensures
            r == if self.to_guest@.len() > 0 {
                None
            } else {
                time_left(left_ns, waited_ns)
            },
    {
        if self.to_guest.len() > 0 || waited_ns >= left_ns {
            None
        } else {
            Some(left_ns - waited_ns)
        }
    }
}

/// How long a wait without a packet lasts, in nanoseconds.
pub open spec fn wait_limit(timeout_ns: Option<u128>) -> u128 {
    match timeout_ns {
        Some(t) => t,
        None => DEFAULT_WAIT_NS,
    }
}

/// What is left of a wait of `left_ns` after `waited_ns`, if anything is.
pub open spec fn time_left(left_ns: u128, waited_ns: u128) -> Option<u128> {
    if waited_ns >= left_ns {
        None
    } else {
        Some((left_ns - waited_ns) as u128)
    }
}

/// What is left of a wait of `left_ns` after waits of these lengths, each for what the one before
/// left over.
pub open spec fn time_left_after(left_ns: u128, waits: Seq<u128>) -> Option<u128>
    decreases waits.len(),
{
    if waits.len() == 0 {
        Some(left_ns)
    } else {
        match time_left_after(left_ns, waits.drop_last()) {
            Some(left) => time_left(left, waits.last()),
            None => None,
        }
    }
}

/// The sum of the lengths of some waits.
pub open spec fn total_wait(waits: Seq<u128>) -> nat
    decreases waits.len(),
{
    if waits.len() == 0 {
        0
    } else {
        total_wait(waits.drop_last()) + waits.last() as nat
    }
}

/// A wait to which no packet comes, however often it is woken, ends when the time has passed, and no
/// earlier.
pub proof fn law_wait_lasts(timeout_ns: Option<u128>, waits: Seq<u128>)
    ensures
        waits.len() > 0 ==> (time_left_after(wait_limit(timeout_ns), waits) is None <==> total_wait(
            waits,
        ) >= wait_limit(timeout_ns)),
        time_left_after(wait_limit(timeout_ns), waits) matches Some(left) ==> left + total_wait(waits)
            == wait_limit(timeout_ns),
    decreases waits.len(),
{
    if waits.len() > 0 {
        law_wait_lasts(timeout_ns, waits.drop_last());
    }
}

/// The ports for which listeners stand ready from the start.
pub open spec fn well_known() -> Seq<u16> {
    seq![53u16, 80, 443]
}

/// The ports for which listeners stand ready from the start.
pub fn well_known_ports() -> (r: Vec<u16>)
    ensures
        r@ == well_known(),
{
    let mut out: Vec<u16> = Vec::new();
    out.push(53);
    out.push(80);
    out.push(443);
    assert(out@ =~= well_known());
    out
}

/// The time since the start, in microseconds, as far as it can be told.
pub fn now(elapsed_micros: u128) -> (r: i64)
    ensures
        r == if elapsed_micros <= i64::MAX {
            elapsed_micros as int
        } else {
            i64::MAX as int
        },
{
    if elapsed_micros <= 0x7FFF_FFFF_FFFF_FFFF {
        elapsed_micros as i64
    } else {
        i64::MAX
    }
}

/// A socket that waits for a TCP connection to a port.
#[derive(Debug, PartialEq, Eq)]
pub struct Listener<H> {
    pub port: u16,
    pub slot: usize,
    pub handle: H,
}

/// The sockets that wait for TCP connections, several for a port.
#[derive(Debug, PartialEq, Eq)]
pub struct TcpListeners<H> {
    pub entries: Vec<Listener<H>>,
}

impl<H> TcpListeners<H> {
    /// Whether the listener in slot `slot` of the port is there.
    pub open spec fn has(self, port: u16, slot: usize) -> bool {
        exists|i: int|
            0 <= i < self.entries@.len() && (#[trigger] self.entries@[i]).port == port
                && self.entries@[i].slot == slot
    }

    /// No slot of a port is taken twice.
    pub open spec fn wf(self) -> bool {
        forall|i: int, j: int|
            0 <= i < j < self.entries@.len() ==> !((#[trigger] self.entries@[i]).port == (
            #[trigger] self.entries@[j]).port && self.entries@[i].slot == self.entries@[j].slot)
    }

    /// No listeners.
    pub fn new() -> (r: Self)
        ensures
            r.wf(),
            r.entries@ == Seq::<Listener<H>>::empty(),
    {
        TcpListeners { entries: Vec::new() }
    }

    /// Whether a listener for the port has to be made. One is enough.
    pub fn ensure_listening(&self, port: u16) -> (r: bool)
        ensures
            r == !self.has(port, 0),
    {
        let mut i: usize = 0;
        while i < self.entries.len()
            invariant
                i <= self.entries@.len(),
                forall|j: int|
                    0 <= j < i ==> !((#[trigger] self.entries@[j]).port == port
                        && self.entries@[j].slot == 0),
            decreases self.entries@.len() - i,
        {
            if self.entries[i].port == port && self.entries[i].slot == 0 {
                assert(self.entries@[i as int].port == port);
                return false;
            }
            i = i + 1;
        }
        true
    }

    /// Adds a listener.
    pub fn insert(&mut self, port: u16, slot: usize, handle: H)
        requires
            old(self).wf(),
            !old(self).has(port, slot),
        ensures
            final(self).wf(),
            final(self).entries@ == old(self).entries@.push(Listener { port, slot, handle }),
    {
        let ghost before = self.entries@;
        self.entries.push(Listener { port, slot, handle });
        assert forall|i: int, j: int| 0 <= i < j < self.entries@.len() implies !((
        #[trigger] self.entries@[i]).port == (#[trigger] self.entries@[j]).port
            && self.entries@[i].slot == self.entries@[j].slot) by {
            assert(self.entries@[i] == before[i]);
            if j < before.len() {
                assert(self.entries@[j] == before[j]);
            }
        }
    }

    /// A connection was made to listener `i`: its socket is handed out, and a new one stands ready in
    /// its place.
    pub fn accept(&mut self, i: usize, refill: H) -> (r: H)
        requires
            old(self).wf(),
            i < old(self).entries@.len(),
        ensures
            final(self).wf(),
            r == old(self).entries@[i as int].handle,
            final(self).entries@ == old(self).entries@.update(
                i as int,
                Listener {
                    port: old(self).entries@[i as int].port,
                    slot: old(self).entries@[i as int].slot,
                    handle: refill,
                },
            ),
    {
        let ghost before = self.entries@;
        let port: u16 = self.entries[i].port;
        let slot: usize = self.entries[i].slot;
        let mut entry = Listener { port, slot, handle: refill };
        self.entries.push(entry);
        let old_entry = self.entries.swap_remove(i);
        proof {
            assert(self.entries@ =~= before.update(i as int, entry));
            assert forall|a: int, b: int| 0 <= a < b < self.entries@.len() implies !((
            #[trigger] self.entries@[a]).port == (#[trigger] self.entries@[b]).port
                && self.entries@[a].slot == self.entries@[b].slot) by {
                assert(before[a].port == self.entries@[a].port);
                assert(before[b].port == self.entries@[b].port);
                assert(before[a].slot == self.entries@[a].slot);
                assert(before[b].slot == self.entries@[b].slot);
            }
        }
        old_entry.handle
    }
}

/// Accepting a connection leaves as many listeners for every port as before.
pub proof fn law_accept_refills<H>(
    before: TcpListeners<H>,
    after: TcpListeners<H>,
    i: int,
    refill: H,
    port: u16,
    slot: usize,
)
    requires
        0 <= i < before.entries@.len(),
        after.entries@ == before.entries@.update(
            i,
            Listener {
                port: before.entries@[i].port,
                slot: before.entries@[i].slot,
                handle: refill,
            },
        ),
    ensures
        after.has(port, slot) == before.has(port, slot),
{
    assert forall|j: int| 0 <= j < before.entries@.len() implies (#[trigger] before.entries@[j]).port
        == (#[trigger] after.entries@[j]).port && before.entries@[j].slot
        == after.entries@[j].slot by {}
    if before.has(port, slot) {
        let j = choose|j: int|
            0 <= j < before.entries@.len() && (#[trigger] before.entries@[j]).port == port
                && before.entries@[j].slot == slot;
        assert(after.entries@[j].port == port);
    }
    if after.has(port, slot) {
        let j = choose|j: int|
            0 <= j < after.entries@.len() && (#[trigger] after.entries@[j]).port == port
                && after.entries@[j].slot == slot;
        assert(before.entries@[j].port == port);
    }
}

/// Where a new connection or a datagram of the guest is to be passed on to: the address that it was
/// made for, if that is known, and the port of the listener.
pub fn accept_tcp_flow(local: Option<u32>, listen_port: u16) -> (r: Option<(u32, u16)>)
    ensures
        r == match local {
            Some(addr) => Some((addr, listen_port)),
            None => None,
        },
{
    match local {
        Some(addr) => Some((addr, listen_port)),
        None => None,
    }
}

/// What came of handing bytes to a socket that does not wait.
#[derive(Debug, Clone, Copy, PartialEq, Eq, Structural)]
pub enum SendOutcome {
    /// So many of them were taken.
    Sent(usize),
    /// None of them were taken for now.
    WouldBlock,
    /// The socket is broken.
    Failed,
}

/// What came of reading from a socket that does not wait.
#[derive(Debug, PartialEq, Eq)]
pub enum ReadOutcome {
    /// These bytes; none at the end.
    Data(Vec<u8>),
    /// Nothing has arrived.
    WouldBlock,
    /// The socket is broken.
    Failed,
}

/// How an attempt to connect stands.
#[derive(Debug, Clone, Copy, PartialEq, Eq, Structural)]
pub enum ConnectOutcome {
    Pending,
    Connected,
    Failed,
}

/// How many bytes went out.
pub open spec fn taken(outcome: SendOutcome) -> nat {
    match outcome {
        SendOutcome::Sent(n) => n as nat,
        _ => 0,
    }
}

/// One thing that happens to the bytes of one direction.
pub enum ChannelEvent {
    /// Of the bytes that are left over, the first `n` go out.
    Flush { n: nat },
    /// New bytes come in, and the first `n` of them go out; the rest is left over.
    Pass { data: Seq<u8>, n: nat },
}

/// Whether the event can happen: new bytes come in only when nothing is left over.
pub open spec fn can_happen(pending: Seq<u8>, event: ChannelEvent) -> bool {
    match event {
        ChannelEvent::Flush { n } => n <= pending.len(),
        ChannelEvent::Pass { data, n } => pending.len() == 0 && n <= data.len(),
    }
}

/// What is left over after an event.
pub open spec fn left_over(pending: Seq<u8>, event: ChannelEvent) -> Seq<u8> {
    match event {
        ChannelEvent::Flush { n } => pending.skip(n as int),
        ChannelEvent::Pass { data, n } => data.skip(n as int),
    }
}

/// What a connection does next within one round.
#[derive(Debug, Clone, Copy, PartialEq, Eq, Structural)]
pub enum PumpPhase {
    /// Bytes of the guest that are left over go out first.
    FlushReal,
    /// Then what else the guest has sent.
    Forward,
    /// Then bytes for the guest that are left over.
    FlushGuest,
    /// Then what else has arrived for it.
    Backward,
    /// The round is over.
    Finish,
}

/// What to do next for a connection. Each step names the method that takes its outcome.
#[derive(Debug, Clone, Copy, PartialEq, Eq, Structural)]
pub enum PumpStep {
    /// Write `pending_to_real`: [`TcpFlow::on_flushed_real`].
    WritePending,
    /// Take up to [`CHUNK_SIZE`] bytes from the guest and write them: [`TcpFlow::on_forwarded`].
    Receive,
    /// Send `pending_to_guest`: [`TcpFlow::on_flushed_guest`].
    SendPending,
    /// Read up to [`CHUNK_SIZE`] bytes: [`TcpFlow::on_read`], and if it returns any, send them:
    /// [`TcpFlow::on_backward`].
    ReadReal,
    /// End the round: [`TcpFlow::may_close`].
    Finish,
}

/// One connection of the guest and the socket that it is passed on to.
#[derive(Debug, PartialEq, Eq)]
pub struct TcpFlow {
    pub connected: bool,
    /// The socket has ended or is broken.
    pub real_closed: bool,
    /// Bytes of the guest that the socket has not taken yet.
    pub pending_to_real: Vec<u8>,
    /// Bytes for the guest that its connection has not taken yet.
    pub pending_to_guest: Vec<u8>,
    /// The socket had ended or was broken when the round began: all that is left to do is to send
    /// what the guest has not taken yet.
    pub draining: bool,
    pub phase: PumpPhase,
}

/// The step that comes next, and the phase it belongs to. What is left over goes out before anything
/// new is taken in, in both directions. A connection that is draining reads nothing any more.
pub open spec fn pump_next(
    phase: PumpPhase,
    to_real: nat,
    to_guest: nat,
    can_recv: bool,
    can_send: bool,
    draining: bool,
) -> (PumpPhase, PumpStep) {
    if phase == PumpPhase::FlushReal && to_real > 0 {
        (PumpPhase::FlushReal, PumpStep::WritePending)
    } else if (phase == PumpPhase::FlushReal || phase == PumpPhase::Forward) && to_real == 0
        && can_recv {
        (PumpPhase::Forward, PumpStep::Receive)
    } else if phase != PumpPhase::Backward && phase != PumpPhase::Finish && to_guest > 0
        && can_send {
        (PumpPhase::FlushGuest, PumpStep::SendPending)
    } else if phase != PumpPhase::Finish && to_guest == 0 && can_send && !draining {
        (PumpPhase::Backward, PumpStep::ReadReal)
    } else {
        (PumpPhase::Finish, PumpStep::Finish)
    }
}

/// Whether the guest's connection is to be closed: the socket has ended, and every byte that was
/// read from it has been delivered.
pub open spec fn closes(real_closed: bool, to_guest: nat, send_queue: nat) -> bool {
    real_closed && to_guest == 0 && send_queue == 0
}

fn rest_of(data: &[u8], n: usize) -> (r: Vec<u8>)
    requires
        n <= data@.len(),
    ensures
        r@ == data@.skip(n as int),
{
    let r = bytes::copy_range(data, n, data.len());
    assert(r@ =~= data@.skip(n as int));
    r
}

impl TcpFlow {
    /// A connection whose socket is still being connected.
    pub fn new() -> (r: Self)
        ensures
            !r.connected,
            !r.real_closed,
            r.pending_to_real@ == Seq::<u8>::empty(),
            r.pending_to_guest@ == Seq::<u8>::empty(),
            !r.draining,
            r.phase == PumpPhase::Finish,
    {
        TcpFlow {
            connected: false,
            real_closed: false,
            pending_to_real: Vec::new(),
            pending_to_guest: Vec::new(),
            draining: false,
            phase: PumpPhase::Finish,
        }
    }

    /// Begins a round. Returns whether there is anything to do in it: not while the socket is being
    /// connected. `connect` says how that stands, and counts only until it is decided. When the
    /// socket has ended, is broken or could not be connected, what is left over for the guest is
    /// still sent, until the guest's connection may be closed.
    pub fn pump_tcp_flows(&mut self, connect: ConnectOutcome) -> (r: bool)
        ensures
            final(self).connected == (old(self).connected || (!old(self).real_closed && connect
                == ConnectOutcome::Connected)),
            final(self).real_closed == (old(self).real_closed || (!old(self).connected && connect
                == ConnectOutcome::Failed)),
            r == (final(self).connected || final(self).real_closed),
            final(self).draining == final(self).real_closed,
            final(self).phase == if !r {
                PumpPhase::Finish
            } else if final(self).real_closed {
                PumpPhase::FlushGuest
            } else {
                PumpPhase::FlushReal
            },
            final(self).pending_to_real@ == old(self).pending_to_real@,
            final(self).pending_to_guest@ == old(self).pending_to_guest@,
    {
        if !self.connected && !self.real_closed {
            match connect {
                ConnectOutcome::Connected => {
                    self.connected = true;
                },
                ConnectOutcome::Failed => {
                    self.real_closed = true;
                },
                ConnectOutcome::Pending => {},
            }
        }
        self.draining = self.real_closed;
        self.phase = if self.real_closed {
            PumpPhase::FlushGuest
        } else if self.connected {
            PumpPhase::FlushReal
        } else {
            PumpPhase::Finish
        };
        self.connected || self.real_closed
    }

    /// The next step, given whether the guest's connection holds bytes and whether it takes any.
    pub fn next(&mut self, can_recv: bool, can_send: bool) -> (r: PumpStep)
        ensures
            (final(self).phase, r) == pump_next(
                old(self).phase,
                old(self).pending_to_real@.len(),
                old(self).pending_to_guest@.len(),
                can_recv,
                can_send,
                old(self).draining,
            ),
            final(self).draining == old(self).draining,
            final(self).connected == old(self).connected,
            final(self).real_closed == old(self).real_closed,
            final(self).pending_to_real@ == old(self).pending_to_real@,
            final(self).pending_to_guest@ == old(self).pending_to_guest@,
    {
        let to_real: bool = self.pending_to_real.len() > 0;
        let to_guest: bool = self.pending_to_guest.len() > 0;
        if self.phase == PumpPhase::FlushReal {
            if to_real {
                return PumpStep::WritePending;
            }
            self.phase = PumpPhase::Forward;
        }
        if self.phase == PumpPhase::Forward {
            if !to_real && can_recv {
                return PumpStep::Receive;
            }
            self.phase = PumpPhase::FlushGuest;
        }
        if self.phase == PumpPhase::FlushGuest {
            if to_guest && can_send {
                return PumpStep::SendPending;
            }
            self.phase = PumpPhase::Backward;
        }
        if self.phase == PumpPhase::Backward {
            if !to_guest && can_send && !self.draining {
                return PumpStep::ReadReal;
            }
            self.phase = PumpPhase::Finish;
        }
        PumpStep::Finish
    }

    /// The left-over bytes of the guest were written, as far as they were taken.
    pub fn on_flushed_real(&mut self, outcome: SendOutcome)
        requires
            old(self).phase == PumpPhase::FlushReal,
            taken(outcome) <= old(self).pending_to_real@.len(),
        ensures
            final(self).phase == PumpPhase::Forward,
            final(self).pending_to_real@ == left_over(
                old(self).pending_to_real@,
                (ChannelEvent::Flush { n: taken(outcome) }),
            ),
            final(self).real_closed == (old(self).real_closed || outcome == SendOutcome::Failed),
            final(self).pending_to_guest@ == old(self).pending_to_guest@,
            final(self).connected == old(self).connected,
            final(self).draining == old(self).draining,
    {
        self.phase = PumpPhase::Forward;
        match outcome {
            SendOutcome::Sent(n) => {
                self.pending_to_real = rest_of(self.pending_to_real.as_slice(), n);
            },
            SendOutcome::WouldBlock => {
                assert(self.pending_to_real@ =~= self.pending_to_real@.skip(0));
            },
            SendOutcome::Failed => {
                self.real_closed = true;
                assert(self.pending_to_real@ =~= self.pending_to_real@.skip(0));
            },
        }
    }

    /// Bytes of the guest were taken and written. What was not taken is left over; after a failure
    /// it is lost with the socket.
    pub fn on_forwarded(&mut self, data: &[u8], outcome: SendOutcome)
        requires
            old(self).phase == PumpPhase::Forward,
            old(self).pending_to_real@.len() == 0,
            taken(outcome) <= data@.len(),
        ensures
            final(self).phase == if data@.len() == 0 || outcome == SendOutcome::Failed {
                PumpPhase::FlushGuest
            } else {
                PumpPhase::Forward
            },
            final(self).pending_to_real@ == if outcome == SendOutcome::Failed {
                Seq::<u8>::empty()
            } else {
                left_over(
                    old(self).pending_to_real@,
                    (ChannelEvent::Pass { data: data@, n: taken(outcome) }),
                )
            },
            final(self).real_closed == (old(self).real_closed || (data@.len() > 0 && outcome
                == SendOutcome::Failed)),
            final(self).pending_to_guest@ == old(self).pending_to_guest@,
            final(self).connected == old(self).connected,
            final(self).draining == old(self).draining,
    {
        if data.len() == 0 {
            self.phase = PumpPhase::FlushGuest;
            assert(data@.skip(0) =~= self.pending_to_real@);
            assert(self.pending_to_real@ =~= Seq::<u8>::empty());
            return;
        }
        match outcome {
            SendOutcome::Sent(n) => {
                self.pending_to_real = rest_of(data, n);
            },
            SendOutcome::WouldBlock => {
                self.pending_to_real = rest_of(data, 0);
            },
            SendOutcome::Failed => {
                self.real_closed = true;
                self.phase = PumpPhase::FlushGuest;
                assert(self.pending_to_real@ =~= Seq::<u8>::empty());
            },
        }
    }

    /// The left-over bytes for the guest were sent, as far as they were taken.
    pub fn on_flushed_guest(&mut self, outcome: SendOutcome)
        requires
            old(self).phase == PumpPhase::FlushGuest,
            taken(outcome) <= old(self).pending_to_guest@.len(),
        ensures
            final(self).phase == PumpPhase::Backward,
            final(self).pending_to_guest@ == left_over(
                old(self).pending_to_guest@,
                (ChannelEvent::Flush { n: taken(outcome) }),
            ),
            final(self).real_closed == (old(self).real_closed || outcome == SendOutcome::Failed),
            final(self).pending_to_real@ == old(self).pending_to_real@,
            final(self).connected == old(self).connected,
            final(self).draining == old(self).draining,
    {
        self.phase = PumpPhase::Backward;
        match outcome {
            SendOutcome::Sent(n) => {
                self.pending_to_guest = rest_of(self.pending_to_guest.as_slice(), n);
            },
            SendOutcome::WouldBlock => {
                assert(self.pending_to_guest@ =~= self.pending_to_guest@.skip(0));
            },
            SendOutcome::Failed => {
                self.real_closed = true;
                assert(self.pending_to_guest@ =~= self.pending_to_guest@.skip(0));
            },
        }
    }

    /// The socket was read. Returns the bytes that are to be sent to the guest, if there are any.
    pub fn on_read(&mut self, outcome: ReadOutcome) -> (r: Option<Vec<u8>>)
        requires
            old(self).phase == PumpPhase::Backward,
        ensures
            match outcome {
                ReadOutcome::Data(data) => if data@.len() == 0 {
                    r is None && final(self).real_closed && final(self).phase == PumpPhase::Finish
                } else {
                    r == Some(data) && final(self).real_closed == old(self).real_closed
                        && final(self).phase == PumpPhase::Backward
                },
                ReadOutcome::WouldBlock => r is None && final(self).real_closed
                    == old(self).real_closed && final(self).phase == PumpPhase::Finish,
                ReadOutcome::Failed => r is None && final(self).real_closed && final(self).phase
                    == PumpPhase::Finish,
            },
            final(self).pending_to_real@ == old(self).pending_to_real@,
            final(self).pending_to_guest@ == old(self).pending_to_guest@,
            final(self).connected == old(self).connected,
            final(self).draining == old(self).draining,
    {
        match outcome {
            ReadOutcome::Data(data) => {
                if data.len() == 0 {
                    self.real_closed = true;
                    self.phase = PumpPhase::Finish;
                    None
                } else {
                    Some(data)
                }
            },
            ReadOutcome::WouldBlock => {
                self.phase = PumpPhase::Finish;
                None
            },
            ReadOutcome::Failed => {
                self.real_closed = true;
                self.phase = PumpPhase::Finish;
                None
            },
        }
    }

    /// Bytes that were read were sent to the guest. What was not taken is left over; after a failure
    /// it is lost with the guest's connection.
    pub fn on_backward(&mut self, data: &[u8], outcome: SendOutcome)
        requires
            old(self).phase == PumpPhase::Backward,
            old(self).pending_to_guest@.len() == 0,
            taken(outcome) <= data@.len(),
        ensures
            final(self).phase == if outcome == SendOutcome::Failed {
                PumpPhase::Finish
            } else {
                PumpPhase::Backward
            },
            final(self).pending_to_guest@ == if outcome == SendOutcome::Failed {
                Seq::<u8>::empty()
            } else {
                left_over(
                    old(self).pending_to_guest@,
                    (ChannelEvent::Pass { data: data@, n: taken(outcome) }),
                )
            },
            final(self).real_closed == (old(self).real_closed || outcome == SendOutcome::Failed),
            final(self).pending_to_real@ == old(self).pending_to_real@,
            final(self).connected == old(self).connected,
            final(self).draining == old(self).draining,
    {
        match outcome {
            SendOutcome::Sent(n) => {
                self.pending_to_guest = rest_of(data, n);
            },
            SendOutcome::WouldBlock => {
                self.pending_to_guest = rest_of(data, 0);
            },
            SendOutcome::Failed => {
                self.real_closed = true;
                self.phase = PumpPhase::Finish;
                assert(self.pending_to_guest@ =~= Seq::<u8>::empty());
            },
        }
    }

    /// Whether the guest's connection is to be closed: the socket has ended, and every byte that was
    /// read from it has been delivered.
    pub fn may_close(&self, send_queue: usize) -> (r: bool)
        ensures
            r == closes(self.real_closed, self.pending_to_guest@.len(), send_queue as nat),
    {
        self.real_closed && self.pending_to_guest.len() == 0 && send_queue == 0
    }
}

/// What goes out in an event.
pub open spec fn goes_out(pending: Seq<u8>, event: ChannelEvent) -> Seq<u8> {
    match event {
        ChannelEvent::Flush { n } => pending.take(n as int),
        ChannelEvent::Pass { data, n } => data.take(n as int),
    }
}

/// What comes in in an event.
pub open spec fn comes_in(event: ChannelEvent) -> Seq<u8> {
    match event {
        ChannelEvent::Flush { n } => Seq::empty(),
        ChannelEvent::Pass { data, n } => data,
    }
}

/// Whether the events can happen one after the other.
pub open spec fn can_all_happen(pending: Seq<u8>, events: Seq<ChannelEvent>) -> bool
    decreases events.len(),
{
    events.len() == 0 || (can_happen(pending, events[0]) && can_all_happen(
        left_over(pending, events[0]),
        events.skip(1),
    ))
}

/// What is left over after all events.
pub open spec fn all_left_over(pending: Seq<u8>, events: Seq<ChannelEvent>) -> Seq<u8>
    decreases events.len(),
{
    if events.len() == 0 {
        pending
    } else {
        all_left_over(left_over(pending, events[0]), events.skip(1))
    }
}

/// Everything that goes out.
pub open spec fn all_out(pending: Seq<u8>, events: Seq<ChannelEvent>) -> Seq<u8>
    decreases events.len(),
{
    if events.len() == 0 {
        Seq::empty()
    } else {
        goes_out(pending, events[0]) + all_out(left_over(pending, events[0]), events.skip(1))
    }
}

/// Everything that comes in.
pub open spec fn all_in(events: Seq<ChannelEvent>) -> Seq<u8>
    decreases events.len(),
{
    if events.len() == 0 {
        Seq::empty()
    } else {
        comes_in(events[0]) + all_in(events.skip(1))
    }
}

/// Bytes are passed on in their order, and none is lost or doubled: what has gone out, followed by
/// what is left over, is what has come in. This holds of each direction of a connection as long as
/// its sockets last.
pub proof fn law_bytes_keep_their_order(pending: Seq<u8>, events: Seq<ChannelEvent>)
    requires
        can_all_happen(pending, events),
    ensures
        all_out(pending, events) + all_left_over(pending, events) == pending + all_in(events),
    decreases events.len(),
{
    if events.len() == 0 {
        assert(Seq::<u8>::empty() + pending =~= pending + Seq::<u8>::empty());
    } else {
        let event = events[0];
        let rest = events.skip(1);
        let left = left_over(pending, event);
        law_bytes_keep_their_order(left, rest);
        let out = goes_out(pending, event);
        let later = all_out(left, rest);
        let end = all_left_over(left, rest);
        assert((out + later) + end =~= out + (later + end));
        assert(out + (left + all_in(rest)) =~= (out + left) + all_in(rest));
        match event {
            ChannelEvent::Flush { n } => {
                assert(out + left =~= pending);
                assert(Seq::<u8>::empty() + all_in(rest) =~= all_in(rest));
            },
            ChannelEvent::Pass { data, n } => {
                assert(out + left =~= data);
                assert(pending + (data + all_in(rest)) =~= data + all_in(rest));
            },
        }
    }
}

/// How far a phase is from the end of a round.
pub open spec fn phase_rank(phase: PumpPhase) -> nat {
    match phase {
        PumpPhase::FlushReal => 4,
        PumpPhase::Forward => 3,
        PumpPhase::FlushGuest => 2,
        PumpPhase::Backward => 1,
        PumpPhase::Finish => 0,
    }
}

/// The phases of a round follow each other: the next step never belongs to an earlier phase, and
/// new bytes are taken in only when nothing of that direction is left over.
pub proof fn law_pump_takes_in_only_when_empty(
    phase: PumpPhase,
    to_real: nat,
    to_guest: nat,
    can_recv: bool,
    can_send: bool,
    draining: bool,
)
    ensures
        ({
            let next = pump_next(phase, to_real, to_guest, can_recv, can_send, draining);
            &&& phase_rank(next.0) <= phase_rank(phase)
            &&& next.1 == PumpStep::Receive ==> to_real == 0 && can_recv
            &&& next.1 == PumpStep::ReadReal ==> to_guest == 0 && can_send
            &&& next.1 == PumpStep::Finish <==> next.0 == PumpPhase::Finish
        }),
{
}

/// Bytes that wait are moved: a round of a connection writes what is left over of the guest's bytes,
/// or else takes what the guest has sent; then sends what is left over for the guest, or else reads
/// what has arrived for it, as far as the guest takes any. A round ends only when none of that is
/// left to do.
pub proof fn law_waiting_bytes_are_moved(
    to_real: nat,
    to_guest: nat,
    can_recv: bool,
    can_send: bool,
)
    ensures
        to_real > 0 ==> pump_next(
            PumpPhase::FlushReal,
            to_real,
            to_guest,
            can_recv,
            can_send,
            false,
        ).1 == PumpStep::WritePending,
        can_recv ==> pump_next(PumpPhase::FlushReal, 0, to_guest, can_recv, can_send, false).1
            == PumpStep::Receive,
        can_recv ==> pump_next(PumpPhase::Forward, 0, to_guest, can_recv, can_send, false).1
            == PumpStep::Receive,
        to_guest > 0 && can_send ==> pump_next(
            PumpPhase::Forward,
            to_real,
            to_guest,
            false,
            can_send,
            false,
        ).1 == PumpStep::SendPending,
        to_guest > 0 && can_send ==> pump_next(
            PumpPhase::FlushGuest,
            to_real,
            to_guest,
            can_recv,
            can_send,
            false,
        ).1 == PumpStep::SendPending,
        can_send ==> pump_next(PumpPhase::FlushGuest, to_real, 0, can_recv, can_send, false).1
            == PumpStep::ReadReal,
        can_send ==> pump_next(PumpPhase::Backward, to_real, 0, can_recv, can_send, false).1
            == PumpStep::ReadReal,
        pump_next(PumpPhase::FlushReal, to_real, to_guest, can_recv, can_send, false).1
            == PumpStep::Finish ==> to_real == 0 && !can_recv && !can_send,
        !can_send ==> pump_next(PumpPhase::FlushGuest, to_real, to_guest, can_recv, can_send, false).1
            == PumpStep::Finish,
{
}

/// A connection of the guest is closed exactly when the socket has ended and nothing is under way to
/// the guest any more.
pub proof fn law_only_delivered_connections_close(
    real_closed: bool,
    to_guest: nat,
    send_queue: nat,
)
    ensures
        closes(real_closed, to_guest, send_queue) <==> real_closed && to_guest + send_queue == 0,
{
}

/// Of bytes that were handed to a socket, those went out that it says it took; a socket that waits or
/// is broken took none. A packet that is taken into a buffer is taken as far as both reach.
pub proof fn law_as_much_goes_out_as_was_taken(n: usize, a: nat, b: nat)
    ensures
        taken(SendOutcome::Sent(n)) == n,
        taken(SendOutcome::WouldBlock) == 0,
        taken(SendOutcome::Failed) == 0,
        shorter(a, b) <= a,
        shorter(a, b) <= b,
        shorter(a, b) == a || shorter(a, b) == b,
{
}

/// What is left over of bytes of which some went out begins right behind those.
pub proof fn law_nothing_is_sent_twice(pending: Seq<u8>, data: Seq<u8>, n: nat, k: int)
    requires
        0 <= k,
    ensures
        n + k < pending.len() ==> left_over(pending, ChannelEvent::Flush { n })[k] == pending[n + k],
        n <= pending.len() ==> left_over(pending, ChannelEvent::Flush { n }).len() + n
            == pending.len(),
        n + k < data.len() ==> left_over(pending, (ChannelEvent::Pass { data, n }))[k] == data[n + k],
        n <= data.len() ==> left_over(pending, (ChannelEvent::Pass { data, n })).len() + n
            == data.len(),
{
}

/// A flow is idle when thirty seconds have passed since it was used last, and no earlier.
pub proof fn law_flows_idle_out<S>(flow: UdpFlow<S>, now: u64)
    ensures
        flow.is_idle(now) <==> now >= flow.last_active + 30_000,
{
}

/// A connection whose socket is gone is drained: in a round that begins so, the bytes that are left
/// over for the guest are sent if it takes any, nothing else is done, and once they are all taken
/// the guest's connection is closed.
pub proof fn law_closed_connection_is_drained(
    to_real: nat,
    to_guest: nat,
    can_recv: bool,
    can_send: bool,
)
    ensures
        pump_next(PumpPhase::FlushGuest, to_real, to_guest, can_recv, can_send, true)
            == if to_guest > 0 && can_send {
            (PumpPhase::FlushGuest, PumpStep::SendPending)
        } else {
            (PumpPhase::Finish, PumpStep::Finish)
        },
        pump_next(PumpPhase::Backward, to_real, to_guest, can_recv, can_send, true) == (
            PumpPhase::Finish,
            PumpStep::Finish,
        ),
        closes(true, 0, 0),
{
}

/// A datagram that arrived for the guest, and the IPv4 address it came from.
#[derive(Debug, Clone, PartialEq, Eq)]
pub struct UdpReply {
    pub from: u32,
    pub data: Vec<u8>,
}

/// One UDP exchange of the guest: the socket that stands for the guest's port towards one
/// destination port, when it was used last, in milliseconds, and the reply that has been read from
/// the socket and not delivered yet.
#[derive(Debug, PartialEq, Eq)]
pub struct UdpFlow<S> {
    pub dest_port: u16,
    pub guest_port: u16,
    pub socket: S,
    pub last_active: u64,
    pub held: Option<UdpReply>,
}

/// What to do next for a flow.
#[derive(Debug, Clone, Copy, PartialEq, Eq, Structural)]
pub enum UdpStep {
    /// Send the held reply to the guest.
    Deliver,
    /// Read from the socket.
    Continue,
    /// Stop for this round.
    Stop,
    /// Give the flow up.
    Remove,
}

/// What came of a read from a flow's socket.
#[derive(Debug, Clone, PartialEq, Eq)]
pub enum UdpEvent {
    /// A datagram from an IPv4 address.
    Datagram(UdpReply),
    /// A datagram from some other address.
    ForeignDatagram,
    /// Nothing has arrived.
    WouldBlock,
    /// The socket is broken.
    Failed,
}

/// What came of sending a reply to the guest.
#[derive(Debug, Clone, Copy, PartialEq, Eq, Structural)]
pub enum UdpDelivery {
    /// The guest's socket has taken it.
    Sent,
    /// There is no room for it now.
    Full,
    /// The guest's socket will never take it.
    Refused,
}

/// The UDP exchanges of the guest.
#[derive(Debug, PartialEq, Eq)]
pub struct UdpFlows<S> {
    pub flows: Vec<UdpFlow<S>>,
}

/// What happens to the replies of a flow.
pub enum ReplyEvent {
    Read(UdpReply),
    Delivery(UdpDelivery),
}

/// Whether the event can happen: a reply is read only when none is held, and only a held one is
/// sent.
pub open spec fn reply_fits(held: Option<UdpReply>, event: ReplyEvent) -> bool {
    match event {
        ReplyEvent::Read(_) => held is None,
        ReplyEvent::Delivery(_) => held is Some,
    }
}

/// The reply that is held after an event.
pub open spec fn held_after(held: Option<UdpReply>, event: ReplyEvent) -> Option<UdpReply> {
    match event {
        ReplyEvent::Read(reply) => Some(reply),
        ReplyEvent::Delivery(UdpDelivery::Full) => held,
        ReplyEvent::Delivery(_) => None,
    }
}

/// The reply that is held after some events, from none.
pub open spec fn held_after_all(events: Seq<ReplyEvent>) -> Option<UdpReply>
    decreases events.len(),
{
    if events.len() == 0 {
        None
    } else {
        held_after(held_after_all(events.drop_last()), events.last())
    }
}

/// Whether each of the events can happen, one after the other.
pub open spec fn replies_fit(events: Seq<ReplyEvent>) -> bool
    decreases events.len(),
{
    events.len() == 0 || (replies_fit(events.drop_last()) && reply_fits(
        held_after_all(events.drop_last()),
        events.last(),
    ))
}

/// The replies that were read, in order.
pub open spec fn replies_read(events: Seq<ReplyEvent>) -> Seq<UdpReply>
    decreases events.len(),
{
    if events.len() == 0 {
        Seq::empty()
    } else {
        let before = replies_read(events.drop_last());
        match events.last() {
            ReplyEvent::Read(reply) => before.push(reply),
            ReplyEvent::Delivery(_) => before,
        }
    }
}

/// The replies that the guest's socket has taken or refused for good, in order.
pub open spec fn replies_settled(events: Seq<ReplyEvent>) -> Seq<UdpReply>
    decreases events.len(),
{
    if events.len() == 0 {
        Seq::empty()
    } else {
        let before = replies_settled(events.drop_last());
        match (events.last(), held_after_all(events.drop_last())) {
            (ReplyEvent::Delivery(UdpDelivery::Full), _) => before,
            (ReplyEvent::Delivery(_), Some(reply)) => before.push(reply),
            _ => before,
        }
    }
}

/// No reply is lost: the replies that were read are, in their order, those that the guest's socket
/// has taken or refused for good, and at the end the one that is held.
pub proof fn law_no_reply_is_lost(events: Seq<ReplyEvent>)
    requires
        replies_fit(events),
    ensures
        replies_read(events) == match held_after_all(events) {
            Some(reply) => replies_settled(events).push(reply),
            None => replies_settled(events),
        },
    decreases events.len(),
{
    if events.len() > 0 {
        law_no_reply_is_lost(events.drop_last());
    }
}

impl<S> UdpFlow<S> {
    /// Whether the flow has not been used for too long.
    pub open spec fn is_idle(self, now: u64) -> bool {
        now - self.last_active >= UDP_FLOW_IDLE_TIMEOUT_MS
    }

    /// Begins a round: a reply that is held goes out before anything is read.
    pub fn next(&self, can_send: bool) -> (r: UdpStep)
        ensures
            r == match self.held {
                Some(_) => if can_send {
                    UdpStep::Deliver
                } else {
                    UdpStep::Stop
                },
                None => UdpStep::Continue,
            },
    {
        match self.held {
            Some(_) => {
                if can_send {
                    UdpStep::Deliver
                } else {
                    UdpStep::Stop
                }
            },
            None => UdpStep::Continue,
        }
    }

    /// Takes in what came of a read from the flow's socket. A reply is held until it is delivered,
    /// in this round or in a later one. A flow is given up when its socket is broken, or when
    /// nothing has arrived and it has been idle for too long; it holds no reply then.
    pub fn pump_udp(&mut self, event: UdpEvent, can_send: bool, now: u64) -> (r: UdpStep)
        requires
            old(self).held is None,
        ensures
            final(self).dest_port == old(self).dest_port,
            final(self).guest_port == old(self).guest_port,
            final(self).socket == old(self).socket,
            final(self).last_active == if event is Datagram {
                now
            } else {
                old(self).last_active
            },
            final(self).held == match event {
                UdpEvent::Datagram(reply) => held_after(old(self).held, ReplyEvent::Read(reply)),
                _ => None,
            },
            r == match event {
                UdpEvent::Datagram(_) => if can_send {
                    UdpStep::Deliver
                } else {
                    UdpStep::Stop
                },
                UdpEvent::ForeignDatagram => UdpStep::Continue,
                UdpEvent::WouldBlock => if old(self).is_idle(now) {
                    UdpStep::Remove
                } else {
                    UdpStep::Stop
                },
                UdpEvent::Failed => UdpStep::Remove,
            },
    {
        match event {
            UdpEvent::Datagram(reply) => {
                self.last_active = now;
                self.held = Some(reply);
                if can_send {
                    UdpStep::Deliver
                } else {
                    UdpStep::Stop
                }
            },
            UdpEvent::ForeignDatagram => UdpStep::Continue,
            UdpEvent::WouldBlock => {
                if now >= self.last_active && now - self.last_active >= UDP_FLOW_IDLE_TIMEOUT_MS {
                    UdpStep::Remove
                } else {
                    UdpStep::Stop
                }
            },
            UdpEvent::Failed => UdpStep::Remove,
        }
    }

    /// Takes in what came of sending the held reply. It stays held as long as there is no room for
    /// it, and nothing is read meanwhile.
    pub fn on_delivered(&mut self, outcome: UdpDelivery) -> (r: UdpStep)
        requires
            old(self).held is Some,
        ensures
            final(self).dest_port == old(self).dest_port,
            final(self).guest_port == old(self).guest_port,
            final(self).socket == old(self).socket,
            final(self).last_active == old(self).last_active,
            final(self).held == held_after(old(self).held, ReplyEvent::Delivery(outcome)),
            r == if outcome == UdpDelivery::Full {
                UdpStep::Stop
            } else {
                UdpStep::Continue
            },
    {
        match outcome {
            UdpDelivery::Full => UdpStep::Stop,
            UdpDelivery::Sent | UdpDelivery::Refused => {
                self.held = None;
                UdpStep::Continue
            },
        }
    }
}

impl<S> UdpFlows<S> {
    /// No pair of ports has two flows.
    pub open spec fn wf(self) -> bool {
        forall|i: int, j: int|
            0 <= i < j < self.flows@.len() ==> !((#[trigger] self.flows@[i]).dest_port == (
            #[trigger] self.flows@[j]).dest_port && self.flows@[i].guest_port
                == self.flows@[j].guest_port)
    }

    /// Whether the flow at `i` is the one for these ports.
    pub open spec fn is_at(self, i: int, dest_port: u16, guest_port: u16) -> bool {
        0 <= i < self.flows@.len() && self.flows@[i].dest_port == dest_port
            && self.flows@[i].guest_port == guest_port
    }

    /// Whether there is no flow for these ports.
    pub open spec fn has_none(self, dest_port: u16, guest_port: u16) -> bool {
        forall|i: int| !#[trigger] self.is_at(i, dest_port, guest_port)
    }

    /// No flows.
    pub fn new() -> (r: Self)
        ensures
            r.wf(),
            r.flows@ == Seq::<UdpFlow<S>>::empty(),
    {
        UdpFlows { flows: Vec::new() }
    }

    /// Where the flow for these ports stands.
    pub fn find(&self, dest_port: u16, guest_port: u16) -> (r: Option<usize>)
        ensures
            match r {
                Some(i) => self.is_at(i as int, dest_port, guest_port),
                None => self.has_none(dest_port, guest_port),
            },
    {
        let mut i: usize = 0;
        while i < self.flows.len()
            invariant
                i <= self.flows@.len(),
                forall|j: int| j < i ==> !#[trigger] self.is_at(j, dest_port, guest_port),
            decreases self.flows@.len() - i,
        {
            if self.flows[i].dest_port == dest_port && self.flows[i].guest_port == guest_port {
                return Some(i);
            }
            i = i + 1;
        }
        None
    }

    /// Adds a flow for ports that have none. Returns where it stands.
    pub fn open(&mut self, dest_port: u16, guest_port: u16, socket: S, now: u64) -> (r: usize)
        requires
            old(self).wf(),
            old(self).has_none(dest_port, guest_port),
        ensures
            final(self).wf(),
            r == old(self).flows@.len(),
            final(self).flows@ == old(self).flows@.push(
                (UdpFlow { dest_port, guest_port, socket, last_active: now, held: None }),
            ),
    {
        let ghost before = *self;
        let at: usize = self.flows.len();
        self.flows.push(
            UdpFlow { dest_port, guest_port, socket, last_active: now, held: None },
        );
        assert forall|i: int, j: int| 0 <= i < j < self.flows@.len() implies !((
        #[trigger] self.flows@[i]).dest_port == (#[trigger] self.flows@[j]).dest_port
            && self.flows@[i].guest_port == self.flows@[j].guest_port) by {
            assert(self.flows@[i] == before.flows@[i]);
            assert(!before.is_at(i, dest_port, guest_port));
            if j < before.flows@.len() {
                assert(self.flows@[j] == before.flows@[j]);
            }
        }
        at
    }

    /// Gives up the flow at `i`, and hands out its socket. The others keep their order.
    pub fn remove(&mut self, i: usize) -> (r: S)
        requires
            old(self).wf(),
            i < old(self).flows@.len(),
        ensures
            final(self).wf(),
            r == old(self).flows@[i as int].socket,
            final(self).flows@ == old(self).flows@.remove(i as int),
    {
        let ghost before = self.flows@;
        let flow = self.flows.remove(i);
        proof {
            assert(self.flows@ =~= before.remove(i as int));
            assert forall|a: int, b: int| 0 <= a < b < self.flows@.len() implies !((
            #[trigger] self.flows@[a]).dest_port == (#[trigger] self.flows@[b]).dest_port
                && self.flows@[a].guest_port == self.flows@[b].guest_port) by {
                let a0 = if a < i {
                    a
                } else {
                    a + 1
                };
                let b0 = if b < i {
                    b
                } else {
                    b + 1
                };
                assert(self.flows@[a] == before[a0]);
                assert(self.flows@[b] == before[b0]);
            }
        }
        flow.socket
    }

    /// Takes note that the flow at `i` is used now.
    pub fn touch(&mut self, i: usize, now: u64)
        requires
            old(self).wf(),
            i < old(self).flows@.len(),
        ensures
            final(self).wf(),
            final(self).flows@.len() == old(self).flows@.len(),
            forall|j: int|
                0 <= j < old(self).flows@.len() ==> (#[trigger] final(self).flows@[j]).dest_port
                    == old(self).flows@[j].dest_port && final(self).flows@[j].guest_port
                    == old(self).flows@[j].guest_port && final(self).flows@[j].socket
                    == old(self).flows@[j].socket && final(self).flows@[j].held
                    == old(self).flows@[j].held && final(self).flows@[j].last_active == if j == i {
                    now
                } else {
                    old(self).flows@[j].last_active
                },
    {
        let ghost before = self.flows@;
        self.flows[i].last_active = now;
        assert forall|a: int, b: int| 0 <= a < b < self.flows@.len() implies !((
        #[trigger] self.flows@[a]).dest_port == (#[trigger] self.flows@[b]).dest_port
            && self.flows@[a].guest_port == self.flows@[b].guest_port) by {
            assert(before[a].dest_port == self.flows@[a].dest_port);
            assert(before[b].dest_port == self.flows@[b].dest_port);
            assert(before[a].guest_port == self.flows@[a].guest_port);
            assert(before[b].guest_port == self.flows@[b].guest_port);
        }
    }
}

/// The ports for which datagrams of the guest are taken.
#[derive(Debug, PartialEq, Eq)]
pub struct UdpListeners<H> {
    pub entries: Vec<(u16, H)>,
}

impl<H> UdpListeners<H> {
    /// Whether there is a listener for the port at `i`.
    pub open spec fn is_at(self, i: int, port: u16) -> bool {
        0 <= i < self.entries@.len() && self.entries@[i].0 == port
    }

    /// Whether there is no listener for the port.
    pub open spec fn has_none(self, port: u16) -> bool {
        forall|i: int| !#[trigger] self.is_at(i, port)
    }

    /// No port has two listeners.
    pub open spec fn wf(self) -> bool {
        forall|i: int, j: int|
            0 <= i < j < self.entries@.len() ==> (#[trigger] self.entries@[i]).0 != (
            #[trigger] self.entries@[j]).0
    }

    /// No listeners.
    pub fn new() -> (r: Self)
        ensures
            r.wf(),
            r.entries@ == Seq::<(u16, H)>::empty(),
    {
        UdpListeners { entries: Vec::new() }
    }

    /// Where the listener for the port stands; `None` if one has to be made.
    pub fn ensure_udp_listening(&self, port: u16) -> (r: Option<usize>)
        ensures
            match r {
                Some(i) => self.is_at(i as int, port),
                None => self.has_none(port),
            },
    {
        let mut i: usize = 0;
        while i < self.entries.len()
            invariant
                i <= self.entries@.len(),
                forall|j: int| j < i ==> !#[trigger] self.is_at(j, port),
            decreases self.entries@.len() - i,
        {
            if self.entries[i].0 == port {
                return Some(i);
            }
            i = i + 1;
        }
        None
    }

    /// Adds a listener for a port that has none.
    pub fn insert(&mut self, port: u16, handle: H)
        requires
            old(self).wf(),
            old(self).has_none(port),
        ensures
            final(self).wf(),
            final(self).entries@ == old(self).entries@.push((port, handle)),
    {
        let ghost before = *self;
        self.entries.push((port, handle));
        assert forall|i: int, j: int| 0 <= i < j < self.entries@.len() implies (
        #[trigger] self.entries@[i]).0 != (#[trigger] self.entries@[j]).0 by {
            assert(!before.is_at(i, port));
        }
    }
}

/// A packet of the gateway reaches the guest as it is: with nothing before it in the queue it is what
/// the guest takes next, whole if it fits the guest's buffer, and is then gone from the queue.
pub proof fn law_packets_reach_the_guest(
    queue: &mut LoopbackQueue,
    packet: Vec<u8>,
    later: &mut LoopbackQueue,
    buf: &mut Vec<u8>,
    r: Result<usize, ReceiveError>,
)
    requires
        old(queue).to_guest@.len() == 0,
        call_ensures(LoopbackQueue::transmit, (queue, packet), ()),
        *old(later) == *final(queue),
        call_ensures(LoopbackQueue::receive_ip_packet, (later, buf), r),
    ensures
        packet@.len() <= old(buf)@.len() ==> r == Ok::<usize, ReceiveError>(packet@.len() as usize)
            && final(buf)@.take(packet@.len() as int) == packet@,
        packet@.len() > old(buf)@.len() ==> r == Ok::<usize, ReceiveError>(
            old(buf)@.len() as usize,
        ) && final(buf)@ == packet@.take(old(buf)@.len() as int),
        final(buf)@.len() == old(buf)@.len(),
        final(later).to_guest@.len() == 0,
{
    if packet@.len() <= old(buf)@.len() {
        assert(final(buf)@.take(packet@.len() as int) =~= packet@);
    } else {
        assert(final(buf)@ =~= packet@.take(old(buf)@.len() as int));
    }
}

/// Packets are taken in the order they were sent, in both directions, and a new one stands behind all
/// others.
pub proof fn law_packets_keep_their_order(
    queue: &mut LoopbackQueue,
    packet: &[u8],
    later: &mut LoopbackQueue,
    r: Option<Vec<u8>>,
)
    requires
        call_ensures(LoopbackQueue::send_ip_packet, (queue, packet), ()),
        *old(later) == *final(queue),
        call_ensures(LoopbackQueue::receive, (later,), r),
    ensures
        r is Some,
        old(queue).to_gateway@.len() == 0 ==> r->0@ == packet@,
        old(queue).to_gateway@.len() > 0 ==> r->0 == old(queue).to_gateway@[0]
            && final(later).to_gateway@.last()@ == packet@,
        final(later).to_gateway@.len() == old(queue).to_gateway@.len(),
        final(later).to_guest@ == old(queue).to_guest@,
{
    if old(queue).to_gateway@.len() > 0 {
        assert(final(queue).to_gateway@.drop_last()[0] == old(queue).to_gateway@[0]);
    }
}

/// A wait ends at once when a packet is there, and otherwise goes on for what is left of its time.
pub proof fn law_waiting_ends_for_packets(
    queue: &LoopbackQueue,
    timeout: Option<u128>,
    first: Option<u128>,
    waited: u128,
    next: Option<u128>,
)
    requires
        call_ensures(LoopbackQueue::wait_on_tun, (queue, timeout), first),
        first matches Some(left) ==> call_ensures(
            LoopbackQueue::on_tun_wake,
            (queue, left, waited),
            next,
        ),
    ensures
        queue.to_guest@.len() > 0 <==> first is None,
        first matches Some(left) ==> (timeout matches Some(t) ==> left == t) && (timeout is None
            ==> left == 50_000_000) && (waited < left ==> (next matches Some(rest) && rest + waited
            == left)) && (waited >= left ==> next is None),
{
}

/// Of the guest's bytes none is lost or sent twice while the socket lasts: what is left over after
/// some of them were forwarded is the rest, and goes out first in the next round.
pub proof fn law_forwarded_bytes_go_on(
    flow: &mut TcpFlow,
    data: &[u8],
    n: usize,
    later: &mut TcpFlow,
    m: usize,
)
    requires
        old(flow).phase == PumpPhase::Forward,
        old(flow).pending_to_real@.len() == 0,
        n <= data@.len(),
        call_ensures(TcpFlow::on_forwarded, (flow, data, SendOutcome::Sent(n)), ()),
        old(later).phase == PumpPhase::FlushReal,
        old(later).pending_to_real@ == final(flow).pending_to_real@,
        m <= old(later).pending_to_real@.len(),
        call_ensures(TcpFlow::on_flushed_real, (later, SendOutcome::Sent(m)), ()),
    ensures
        data@.take(n as int) + final(flow).pending_to_real@ == data@,
        data@.take((n + m) as int) + final(later).pending_to_real@ == data@,
        !final(flow).real_closed || old(flow).real_closed,
{
    assert(data@.take(n as int) + final(flow).pending_to_real@ =~= data@);
    assert(data@.take((n + m) as int) + final(later).pending_to_real@ =~= data@);
}

/// Of the bytes for the guest none is lost or sent twice either: a read hands them on as they are,
/// what the guest does not take is left over, and goes out first in the next round.
pub proof fn law_bytes_for_the_guest_go_on(
    flow: &mut TcpFlow,
    data: Vec<u8>,
    read: Option<Vec<u8>>,
    then: &mut TcpFlow,
    part: &[u8],
    n: usize,
    later: &mut TcpFlow,
    m: usize,
)
    requires
        old(flow).phase == PumpPhase::Backward,
        old(flow).pending_to_guest@.len() == 0,
        data@.len() > 0,
        call_ensures(TcpFlow::on_read, (flow, ReadOutcome::Data(data)), read),
        *old(then) == *final(flow),
        read matches Some(bytes) ==> part@ == bytes@,
        n <= part@.len(),
        call_ensures(TcpFlow::on_backward, (then, part, SendOutcome::Sent(n)), ()),
        old(later).phase == PumpPhase::FlushGuest,
        old(later).pending_to_guest@ == final(then).pending_to_guest@,
        m <= old(later).pending_to_guest@.len(),
        call_ensures(TcpFlow::on_flushed_guest, (later, SendOutcome::Sent(m)), ()),
    ensures
        read is Some,
        data@.take(n as int) + final(then).pending_to_guest@ == data@,
        data@.take((n + m) as int) + final(later).pending_to_guest@ == data@,
{
    assert(data@.take(n as int) + final(then).pending_to_guest@ =~= data@);
    assert(data@.take((n + m) as int) + final(later).pending_to_guest@ =~= data@);
}

/// A socket that has ended or is broken is known to have: its end, or a failure to read, write or
/// connect, is remembered, and the guest's connection is closed once nothing is under way to it.
pub proof fn law_ended_sockets_are_known(
    flow: &mut TcpFlow,
    outcome: ReadOutcome,
    read: Option<Vec<u8>>,
    fresh: &mut TcpFlow,
    started: bool,
    closes_fresh: bool,
)
    requires
        old(flow).phase == PumpPhase::Backward,
        call_ensures(TcpFlow::on_read, (flow, outcome), read),
        outcome == ReadOutcome::Failed || (outcome matches ReadOutcome::Data(data) && data@.len()
            == 0),
        !old(fresh).connected,
        old(fresh).pending_to_guest@.len() == 0,
        call_ensures(TcpFlow::pump_tcp_flows, (fresh, ConnectOutcome::Failed), started),
        call_ensures(TcpFlow::may_close, (&*final(fresh), 0usize), closes_fresh),
    ensures
        read is None,
        final(flow).real_closed,
        started,
        closes_fresh,
{
}

/// A listener for a port is asked for as long as there is none, and no more once one was added.
pub proof fn law_one_listener_is_enough<H>(
    listeners: &mut TcpListeners<H>,
    port: u16,
    handle: H,
    before: bool,
    after: bool,
)
    requires
        call_ensures(TcpListeners::<H>::ensure_listening, (&*old(listeners), port), before),
        before,
        old(listeners).wf(),
        call_ensures(TcpListeners::<H>::insert, (listeners, port, 0usize, handle), ()),
        call_ensures(TcpListeners::<H>::ensure_listening, (&*final(listeners), port), after),
    ensures
        !after,
        final(listeners).wf(),
        final(listeners).entries@.last().handle == handle,
{
    let k = old(listeners).entries@.len() as int;
    assert(final(listeners).entries@[k].port == port);
}

/// A UDP reply that was read is what is sent to the guest, now or later, and the flow reads on only
/// when it is gone; a flow that is given up holds none.
pub proof fn law_replies_are_delivered<S>(
    flow: &mut UdpFlow<S>,
    reply: UdpReply,
    can_send: bool,
    now: u64,
    read: UdpStep,
    later: &UdpFlow<S>,
    again: UdpStep,
    then: &mut UdpFlow<S>,
    outcome: UdpDelivery,
    done: UdpStep,
)
    requires
        old(flow).held is None,
        call_ensures(
            UdpFlow::<S>::pump_udp,
            (flow, UdpEvent::Datagram(reply), can_send, now),
            read,
        ),
        *later == *final(flow),
        call_ensures(UdpFlow::<S>::next, (later, true), again),
        *old(then) == *final(flow),
        call_ensures(UdpFlow::<S>::on_delivered, (then, outcome), done),
    ensures
        final(flow).held == Some(reply),
        read == UdpStep::Deliver <==> can_send,
        read != UdpStep::Remove && read != UdpStep::Continue,
        again == UdpStep::Deliver,
        outcome == UdpDelivery::Full ==> final(then).held == Some(reply) && done == UdpStep::Stop,
        outcome == UdpDelivery::Sent ==> final(then).held is None && done == UdpStep::Continue,
{
}

/// A flow of the guest is found under its ports once it was opened, and no more once it was removed,
/// and its socket is handed out then.
pub proof fn law_opened_flows_are_found<S>(
    flows: &mut UdpFlows<S>,
    dest: u16,
    guest: u16,
    socket: S,
    now: u64,
    at: usize,
    opened: &UdpFlows<S>,
    found: Option<usize>,
    later: &mut UdpFlows<S>,
    handed: S,
    left: &UdpFlows<S>,
    gone: Option<usize>,
)
    requires
        old(flows).wf(),
        old(flows).has_none(dest, guest),
        call_ensures(UdpFlows::<S>::open, (flows, dest, guest, socket, now), at),
        *opened == *final(flows),
        call_ensures(UdpFlows::<S>::find, (opened, dest, guest), found),
        *old(later) == *final(flows),
        call_ensures(UdpFlows::<S>::remove, (later, at), handed),
        *left == *final(later),
        call_ensures(UdpFlows::<S>::find, (left, dest, guest), gone),
    ensures
        found == Some(at),
        handed == socket,
        gone is None,
        final(later).flows@ == old(flows).flows@,
{
    let all = final(flows).flows@;
    assert(opened.is_at(at as int, dest, guest));
    if let Some(i) = found {
        if i < at {
            assert(all[i as int] == old(flows).flows@[i as int]);
            assert(old(flows).is_at(i as int, dest, guest));
        }
    }
    assert(final(later).flows@ =~= old(flows).flows@);
    if let Some(i) = gone {
        assert(old(flows).is_at(i as int, dest, guest));
    }
}

/// Using a flow keeps it from idling out for thirty seconds, and nothing else of it changes.
pub proof fn law_used_flows_stay<S>(flows: &mut UdpFlows<S>, i: usize, now: u64, then: u64)
    requires
        old(flows).wf(),
        i < old(flows).flows@.len(),
        call_ensures(UdpFlows::<S>::touch, (flows, i, now), ()),
        now <= then,
        then - now < 30_000,
    ensures
        !final(flows).flows@[i as int].is_idle(then),
        final(flows).flows@[i as int].held == old(flows).flows@[i as int].held,
        final(flows).flows@[i as int].socket == old(flows).flows@[i as int].socket,
{
}

/// A connection or a datagram is passed on to the address that the guest meant and the port that it
/// was made to; without an address it is not passed on.
pub proof fn law_flows_go_where_they_were_meant(
    local: Option<u32>,
    port: u16,
    r: Option<(u32, u16)>,
    micros: u128,
    t: i64,
)
    requires
        call_ensures(accept_tcp_flow, (local, port), r),
        call_ensures(now, (micros,), t),
    ensures
        local is Some <==> r is Some,
        r matches Some((addr, p)) ==> local == Some(addr) && p == port,
        micros < 0x8000_0000_0000_0000 ==> t == micros,
        t >= 0,
{
}

/// Listeners for the ports of name service and of the web, and for no others, stand ready from the
/// start.
pub proof fn law_known_ports_stand_ready(r: Vec<u16>, p: u16)
    requires
        call_ensures(well_known_ports, (), r),
    ensures
        r@.contains(p) <==> p == 53 || p == 80 || p == 443,
        r@.len() == 3,
{
    assert(r@[0] == 53 && r@[1] == 80 && r@[2] == 443);
}

/// Accepting a connection hands out the socket that listened, and leaves another one that listens on
/// the same port; the other listeners stay.
pub proof fn law_accepting_keeps_the_port<H>(
    pool: &mut TcpListeners<H>,
    i: usize,
    refill: H,
    r: H,
    j: int,
)
    requires
        old(pool).wf(),
        i < old(pool).entries@.len(),
        call_ensures(TcpListeners::<H>::accept, (pool, i, refill), r),
        0 <= j < old(pool).entries@.len(),
    ensures
        r == old(pool).entries@[i as int].handle,
        final(pool).entries@[i as int].handle == refill,
        final(pool).entries@.len() == old(pool).entries@.len(),
        final(pool).entries@[j].port == old(pool).entries@[j].port,
        j != i ==> final(pool).entries@[j] == old(pool).entries@[j],
{
}

/// A listener that was added is found under its port.
pub proof fn law_added_listeners_are_found<H>(
    listeners: &mut UdpListeners<H>,
    port: u16,
    handle: H,
    now: &UdpListeners<H>,
    found: Option<usize>,
    other: u16,
    there: Option<usize>,
)
    requires
        old(listeners).has_none(port),
        call_ensures(UdpListeners::<H>::insert, (listeners, port, handle), ()),
        *now == *final(listeners),
        call_ensures(UdpListeners::<H>::ensure_udp_listening, (now, port), found),
        call_ensures(UdpListeners::<H>::ensure_udp_listening, (now, other), there),
    ensures
        found matches Some(i) && now.entries@[i as int] == (port, handle),
        there matches Some(i) ==> now.entries@[i as int].0 == other,
        there is None ==> old(listeners).has_none(other),
{
    let at = old(listeners).entries@.len() as int;
    assert(now.is_at(at, port));
    if let Some(i) = found {
        if i < at {
            assert(old(listeners).is_at(i as int, port));
        }
    }
    if there is None {
        assert forall|i: int| !#[trigger] old(listeners).is_at(i, other) by {
            assert(!now.is_at(i, other));
        }
    }
}

/// A round over a connection begins with what the guest sent, but with what is for the guest if the
/// socket has ended; while the socket is still being connected there is no round, and nothing that
/// waits is lost.
pub proof fn law_rounds_begin_where_work_is(
    flow: &mut TcpFlow,
    connect: ConnectOutcome,
    r: bool,
)
    requires
        call_ensures(TcpFlow::pump_tcp_flows, (flow, connect), r),
    ensures
        old(flow).connected && !old(flow).real_closed ==> r && final(flow).phase
            == PumpPhase::FlushReal && !final(flow).draining,
        old(flow).real_closed ==> r && final(flow).phase == PumpPhase::FlushGuest && final(flow).draining,
        !old(flow).connected && !old(flow).real_closed && connect == ConnectOutcome::Connected
            ==> r && final(flow).phase == PumpPhase::FlushReal && final(flow).connected,
        !old(flow).connected && !old(flow).real_closed && connect == ConnectOutcome::Failed ==> r
            && final(flow).phase == PumpPhase::FlushGuest && final(flow).real_closed,
        !old(flow).connected && !old(flow).real_closed && connect != ConnectOutcome::Connected
            && connect != ConnectOutcome::Failed ==> !r && final(flow).phase == PumpPhase::Finish,
        final(flow).pending_to_real@ == old(flow).pending_to_real@,
        final(flow).pending_to_guest@ == old(flow).pending_to_guest@,
{
}

} // verus!
