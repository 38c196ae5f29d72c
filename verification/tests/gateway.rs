use litebox_windows_userland::net::{
    accept_tcp_flow, now, well_known_ports, ConnectOutcome, LoopbackQueue, PumpPhase, PumpStep,
    ReadOutcome, ReceiveError, SendOutcome, TcpFlow, TcpListeners, UdpDelivery, UdpEvent,
    UdpFlows, UdpListeners, UdpReply, UdpStep,
};
use litebox_windows_userland::packets::{target_of, Target};

fn ipv4(protocol: u8, payload: &[u8]) -> Vec<u8> {
    let total = 20 + payload.len();
    let mut p = vec![0u8; 20];
    p[0] = 0x45;
    p[2] = (total / 256) as u8;
    p[3] = (total % 256) as u8;
    p[9] = protocol;
    p.extend_from_slice(payload);
    p
}

fn tcp_header(port: u16) -> Vec<u8> {
    let mut t = vec![0u8; 20];
    t[2] = (port / 256) as u8;
    t[3] = (port % 256) as u8;
    t[12] = 0x50;
    t
}

fn udp_datagram(port: u16, data: &[u8]) -> Vec<u8> {
    let len = 8 + data.len();
    let mut u = vec![0u8; 8];
    u[2] = (port / 256) as u8;
    u[3] = (port % 256) as u8;
    u[4] = (len / 256) as u8;
    u[5] = (len % 256) as u8;
    u.extend_from_slice(data);
    u
}

#[test]
fn packets_name_their_port() {
    assert_eq!(target_of(&ipv4(6, &tcp_header(8443))), Some(Target::Tcp { port: 8443 }));
    assert_eq!(
        target_of(&ipv4(17, &udp_datagram(53, b"query"))),
        Some(Target::Udp { port: 53 })
    );
    assert_eq!(target_of(&ipv4(1, &tcp_header(80))), None);
    assert_eq!(target_of(&ipv4(6, &tcp_header(0))), Some(Target::Tcp { port: 0 }));
}

#[test]
fn short_packets_are_passed_over() {
    let whole = ipv4(6, &tcp_header(80));
    assert_eq!(target_of(&whole[..19]), None);
    assert_eq!(target_of(&whole[..39]), None);
    assert_eq!(target_of(&[]), None);
    let mut longer = whole.clone();
    longer.extend_from_slice(&[1, 2, 3]);
    assert_eq!(target_of(&longer), Some(Target::Tcp { port: 80 }));
    assert_eq!(target_of(&ipv4(6, &tcp_header(80)[..19])), None);
    let mut bad_offset = tcp_header(80);
    bad_offset[12] = 0x40;
    assert_eq!(target_of(&ipv4(6, &bad_offset)), None);
    bad_offset[12] = 0x60;
    assert_eq!(target_of(&ipv4(6, &bad_offset)), None);
    let mut short_udp = udp_datagram(53, b"");
    short_udp[5] = 7;
    assert_eq!(target_of(&ipv4(17, &short_udp)), None);
    short_udp[5] = 9;
    assert_eq!(target_of(&ipv4(17, &short_udp)), None);
    let mut header_past_total = whole.clone();
    header_past_total[3] = 16;
    assert_eq!(target_of(&header_past_total), None);
}

#[test]
fn ipv4_options_are_skipped() {
    let mut options = vec![0u8; 4];
    options.extend_from_slice(&tcp_header(22));
    let mut p = ipv4(6, &options);
    p[0] = 0x46;
    assert_eq!(target_of(&p), Some(Target::Tcp { port: 22 }));
}

#[test]
fn queues_keep_their_order() {
    let mut q = LoopbackQueue::new();
    q.send_ip_packet(&[1]);
    q.send_ip_packet(&[2, 2]);
    assert_eq!(q.receive(), Some(vec![1]));
    assert_eq!(q.receive(), Some(vec![2, 2]));
    assert_eq!(q.receive(), None);
    let mut buf = vec![9u8; 3];
    assert_eq!(q.receive_ip_packet(&mut buf), Err(ReceiveError::WouldBlock));
    q.transmit(vec![7, 8]);
    q.transmit(vec![1, 2, 3, 4]);
    assert_eq!(q.receive_ip_packet(&mut buf), Ok(2));
    assert_eq!(buf, vec![7, 8, 9]);
    assert_eq!(q.receive_ip_packet(&mut buf), Ok(3));
    assert_eq!(buf, vec![1, 2, 3]);
}

#[test]
fn queued_packets_ask_for_listeners() {
    let mut q = LoopbackQueue::new();
    q.send_ip_packet(&ipv4(6, &tcp_header(80)));
    q.send_ip_packet(&[0]);
    q.send_ip_packet(&ipv4(17, &udp_datagram(53, b"")));
    assert_eq!(
        q.ensure_listeners_for_queued_packets(),
        vec![Target::Tcp { port: 80 }, Target::Udp { port: 53 }]
    );
    assert_eq!(q.receive(), Some(ipv4(6, &tcp_header(80))));
}

#[test]
fn waiting_stops_for_packets() {
    let mut q = LoopbackQueue::new();
    assert_eq!(q.wait_on_tun(None), Some(50_000_000));
    assert_eq!(q.wait_on_tun(Some(7)), Some(7));
    q.transmit(vec![1]);
    assert_eq!(q.wait_on_tun(Some(7)), None);
}

#[test]
fn a_wake_without_a_packet_waits_on() {
    let mut q = LoopbackQueue::new();
    assert_eq!(q.wait_on_tun(Some(300)), Some(300));
    assert_eq!(q.on_tun_wake(300, 0), Some(300));
    assert_eq!(q.on_tun_wake(300, 120), Some(180));
    assert_eq!(q.on_tun_wake(180, 179), Some(1));
    assert_eq!(q.on_tun_wake(1, 1), None);
    assert_eq!(q.on_tun_wake(1, 500), None);
    q.transmit(vec![1]);
    assert_eq!(q.on_tun_wake(300, 120), None);
}

#[test]
fn gateway_basics() {
    assert_eq!(well_known_ports(), vec![53, 80, 443]);
    assert_eq!(now(5), 5);
    assert_eq!(now(u128::MAX), i64::MAX);
    assert_eq!(accept_tcp_flow(Some(0x0A00_0001), 80), Some((0x0A00_0001, 80)));
    assert_eq!(accept_tcp_flow(None, 80), None);
}

#[test]
fn listeners_are_refilled() {
    let mut listeners: TcpListeners<u32> = TcpListeners::new();
    assert!(listeners.ensure_listening(80));
    listeners.insert(80, 0, 100);
    listeners.insert(80, 1, 101);
    assert!(!listeners.ensure_listening(80));
    assert!(listeners.ensure_listening(81));
    assert_eq!(listeners.accept(0, 200), 100);
    assert!(!listeners.ensure_listening(80));
    assert_eq!(listeners.entries[0].handle, 200);
    assert_eq!(listeners.entries[1].handle, 101);
    let mut udp: UdpListeners<u8> = UdpListeners::new();
    assert_eq!(udp.ensure_udp_listening(53), None);
    udp.insert(53, 1);
    assert_eq!(udp.ensure_udp_listening(53), Some(0));
}

#[test]
fn a_connection_waits_for_its_socket() {
    let mut flow = TcpFlow::new();
    assert!(!flow.pump_tcp_flows(ConnectOutcome::Pending));
    assert!(!flow.real_closed);
    assert!(flow.pump_tcp_flows(ConnectOutcome::Connected));
    assert_eq!(flow.phase, PumpPhase::FlushReal);
    let mut refused = TcpFlow::new();
    assert!(refused.pump_tcp_flows(ConnectOutcome::Failed));
    assert!(refused.real_closed && !refused.connected);
    assert_eq!(refused.phase, PumpPhase::FlushGuest);
    assert_eq!(refused.next(true, true), PumpStep::Finish);
    assert!(refused.may_close(0));
    assert!(refused.pump_tcp_flows(ConnectOutcome::Connected));
    assert!(!refused.connected);
}

#[test]
fn a_closed_connection_is_drained() {
    let mut flow = TcpFlow::new();
    assert!(flow.pump_tcp_flows(ConnectOutcome::Connected));
    assert_eq!(flow.next(false, true), PumpStep::ReadReal);
    assert_eq!(
        flow.on_read(ReadOutcome::Data(b"goodbye".to_vec())),
        Some(b"goodbye".to_vec())
    );
    flow.on_backward(b"goodbye", SendOutcome::Sent(2));
    assert_eq!(flow.next(false, true), PumpStep::Finish);
    assert!(flow.pump_tcp_flows(ConnectOutcome::Pending));
    assert_eq!(flow.next(true, false), PumpStep::Receive);
    flow.on_forwarded(b"x", SendOutcome::Failed);
    assert!(flow.real_closed);
    assert_eq!(flow.next(true, false), PumpStep::Finish);
    assert!(!flow.may_close(0));

    assert!(flow.pump_tcp_flows(ConnectOutcome::Pending));
    assert_eq!(flow.phase, PumpPhase::FlushGuest);
    assert_eq!(flow.next(true, true), PumpStep::SendPending);
    flow.on_flushed_guest(SendOutcome::Sent(3));
    assert_eq!(flow.pending_to_guest, b"ye".to_vec());
    assert_eq!(flow.next(true, true), PumpStep::Finish);
    assert!(!flow.may_close(0));

    assert!(flow.pump_tcp_flows(ConnectOutcome::Pending));
    assert_eq!(flow.next(true, true), PumpStep::SendPending);
    flow.on_flushed_guest(SendOutcome::Sent(2));
    assert_eq!(flow.next(true, true), PumpStep::Finish);
    assert!(!flow.may_close(5));
    assert!(flow.may_close(0));
}

#[test]
fn bytes_are_passed_on_in_order() {
    let mut flow = TcpFlow::new();
    assert!(flow.pump_tcp_flows(ConnectOutcome::Connected));
    assert_eq!(flow.next(true, true), PumpStep::Receive);
    flow.on_forwarded(b"hello", SendOutcome::Sent(2));
    assert_eq!(flow.pending_to_real, b"llo".to_vec());
    assert_eq!(flow.next(true, true), PumpStep::ReadReal);
    assert_eq!(
        flow.on_read(ReadOutcome::Data(b"world".to_vec())),
        Some(b"world".to_vec())
    );
    flow.on_backward(b"world", SendOutcome::Sent(4));
    assert_eq!(flow.pending_to_guest, b"d".to_vec());
    assert_eq!(flow.next(true, true), PumpStep::Finish);
    assert!(!flow.may_close(0));

    assert!(flow.pump_tcp_flows(ConnectOutcome::Pending));
    assert_eq!(flow.next(true, true), PumpStep::WritePending);
    flow.on_flushed_real(SendOutcome::WouldBlock);
    assert_eq!(flow.pending_to_real, b"llo".to_vec());
    assert_eq!(flow.next(true, true), PumpStep::SendPending);
    flow.on_flushed_guest(SendOutcome::Sent(1));
    assert_eq!(flow.next(true, true), PumpStep::ReadReal);
    assert_eq!(flow.on_read(ReadOutcome::WouldBlock), None);
    assert_eq!(flow.next(true, true), PumpStep::Finish);

    assert!(flow.pump_tcp_flows(ConnectOutcome::Pending));
    assert_eq!(flow.next(true, true), PumpStep::WritePending);
    flow.on_flushed_real(SendOutcome::Sent(3));
    assert_eq!(flow.next(true, true), PumpStep::Receive);
    flow.on_forwarded(b"", SendOutcome::Sent(0));
    assert_eq!(flow.next(true, true), PumpStep::ReadReal);
    assert_eq!(flow.on_read(ReadOutcome::Data(vec![])), None);
    assert!(flow.real_closed);
    assert!(!flow.may_close(1));
    assert!(flow.may_close(0));
}

#[test]
fn broken_sockets_end_a_connection() {
    let mut flow = TcpFlow::new();
    assert!(flow.pump_tcp_flows(ConnectOutcome::Connected));
    assert_eq!(flow.next(true, false), PumpStep::Receive);
    flow.on_forwarded(b"x", SendOutcome::Failed);
    assert!(flow.real_closed);
    assert_eq!(flow.next(true, true), PumpStep::ReadReal);
    assert_eq!(flow.on_read(ReadOutcome::Failed), None);
    assert_eq!(flow.next(true, true), PumpStep::Finish);
    assert!(flow.pump_tcp_flows(ConnectOutcome::Pending));
    assert_eq!(flow.next(true, true), PumpStep::Finish);
    let mut other = TcpFlow::new();
    assert!(other.pump_tcp_flows(ConnectOutcome::Connected));
    assert_eq!(other.next(false, true), PumpStep::ReadReal);
    other.on_backward(b"abc", SendOutcome::WouldBlock);
    assert_eq!(other.pending_to_guest, b"abc".to_vec());
    assert_eq!(other.next(false, true), PumpStep::Finish);
}

fn reply(data: &[u8]) -> UdpReply {
    UdpReply { from: 0x0808_0808, data: data.to_vec() }
}

#[test]
fn replies_are_held_until_they_are_delivered() {
    let mut flows: UdpFlows<u8> = UdpFlows::new();
    let i = flows.open(53, 4000, 7, 0);
    let flow = &mut flows.flows[i];
    assert_eq!(flow.next(false), UdpStep::Continue);
    let event = UdpEvent::Datagram(reply(b"first"));
    assert_eq!(flow.pump_udp(event, false, 1_000), UdpStep::Stop);
    assert_eq!(flow.held, Some(reply(b"first")));
    assert_eq!(flow.last_active, 1_000);
    assert_eq!(flow.next(false), UdpStep::Stop);
    assert_eq!(flow.next(true), UdpStep::Deliver);
    assert_eq!(flow.on_delivered(UdpDelivery::Full), UdpStep::Stop);
    assert_eq!(flow.held, Some(reply(b"first")));
    assert_eq!(flow.next(true), UdpStep::Deliver);
    assert_eq!(flow.on_delivered(UdpDelivery::Sent), UdpStep::Continue);
    assert_eq!(flow.held, None);
    let event = UdpEvent::Datagram(reply(b"second"));
    assert_eq!(flow.pump_udp(event, true, 2_000), UdpStep::Deliver);
    assert_eq!(flow.on_delivered(UdpDelivery::Refused), UdpStep::Continue);
    assert_eq!(flow.held, None);
}

#[test]
fn udp_flows_end_when_idle_or_broken() {
    let mut flows: UdpFlows<u8> = UdpFlows::new();
    assert_eq!(flows.find(53, 4000), None);
    let i = flows.open(53, 4000, 7, 1_000);
    assert_eq!(flows.find(53, 4000), Some(i));
    assert_eq!(flows.find(53, 4001), None);
    flows.touch(i, 2_000);
    assert_eq!(flows.flows[i].pump_udp(UdpEvent::WouldBlock, true, 31_999), UdpStep::Stop);
    assert_eq!(flows.flows[i].pump_udp(UdpEvent::WouldBlock, true, 32_000), UdpStep::Remove);
    assert_eq!(
        flows.flows[i].pump_udp(UdpEvent::Datagram(reply(b"a")), true, 41_000),
        UdpStep::Deliver
    );
    assert_eq!(flows.flows[i].on_delivered(UdpDelivery::Sent), UdpStep::Continue);
    assert_eq!(
        flows.flows[i].pump_udp(UdpEvent::ForeignDatagram, true, 42_000),
        UdpStep::Continue
    );
    assert_eq!(flows.flows[i].last_active, 41_000);
    assert_eq!(flows.flows[i].pump_udp(UdpEvent::Failed, true, 42_000), UdpStep::Remove);
    assert_eq!(flows.remove(i), 7);
    assert_eq!(flows.find(53, 4000), None);
}
