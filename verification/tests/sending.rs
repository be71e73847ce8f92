use vnt_channel::addr::{SocketAddr, SocketAddrV4, SocketAddrV6};
use vnt_channel::context::{CloseStep, Context, Transmission};
use vnt_channel::error::ChannelError;
use vnt_channel::frame::{frame_head, frame_len};
use vnt_channel::route::{Route, RouteKey, TCP_ID, UDP_ID};

fn v4(port: u16) -> SocketAddr {
    SocketAddr::V4(SocketAddrV4 { ip: 0xc0a8_0102, port })
}

fn mapped(port: u16) -> SocketAddr {
    SocketAddr::V6(SocketAddrV6 { ip: 0xffff_c0a8_0102, port, flowinfo: 0, scope_id: 0 })
}

fn context(main_tcp: bool) -> Context<&'static str> {
    Context::new(main_tcp, 1, false)
}

fn show(sent: &Transmission<&'static str>) -> (u8, &'static str, Vec<u8>, Option<SocketAddr>) {
    match sent {
        Transmission::MainTcp { head, packet } => {
            let mut bytes = head.to_vec();
            bytes.extend_from_slice(packet);
            (0, "", bytes, None)
        }
        Transmission::MainUdp { packet, addr } => (1, "", packet.to_vec(), Some(*addr)),
        Transmission::Udp { udp, packet, addr } => (2, **udp, packet.to_vec(), Some(*addr)),
    }
}

#[test]
fn addresses_are_mapped() {
    assert_eq!(v4(80).to_v6(), mapped(80));
    let v6 = SocketAddr::V6(SocketAddrV6 { ip: 1, port: 80, flowinfo: 2, scope_id: 3 });
    assert_eq!(v6.to_v6(), v6);
    assert_eq!(v6.port(), 80);
    assert_eq!(v4(81).port(), 81);
}

#[test]
fn heads_announce_lengths() {
    assert_eq!(frame_head(0), [0, 0, 0, 0]);
    assert_eq!(frame_head(300), [0, 0, 1, 44]);
    assert_eq!(frame_head(0xffff), [0, 0, 255, 255]);
    assert_eq!(frame_head(0x1_0203), [0, 0, 2, 3]);
    assert_eq!(frame_len([9, 9, 1, 44]), Ok(300));
    assert_eq!(frame_len([0, 0, 0, 12]), Ok(12));
    assert_eq!(frame_len([0, 0, 0, 11]), Err(ChannelError::LengthOverflow));
    assert_eq!(frame_len([0, 0, 16, 0]), Ok(4096));
    assert_eq!(frame_len([0, 0, 16, 1]), Err(ChannelError::LengthOverflow));
    assert_eq!(frame_len(frame_head(1234)), Ok(1234));
}

#[test]
fn errors_have_messages() {
    assert_eq!(ChannelError::RouteNotFound.message(), "route not found");
    assert_eq!(ChannelError::RouteTimeOut.message(), "route time out");
    assert_eq!(ChannelError::TcpNotFound.message(), "tcp not found");
    assert_eq!(ChannelError::LengthOverflow.message(), "length overflow");
    assert!(ChannelError::RouteNotFound.is_not_found());
    assert!(ChannelError::RouteTimeOut.is_not_found());
    assert!(ChannelError::TcpNotFound.is_not_found());
    assert!(!ChannelError::LengthOverflow.is_not_found());
}

#[test]
fn the_server_is_reached_over_tcp() {
    let c = context(true);
    let sent = c.send_main(&[7, 8], v4(1));
    assert_eq!(show(&sent), (0, "", vec![0, 0, 0, 2, 7, 8], None));
    assert_eq!(sent.reported_len(6), 2);
    let sent = c.send_main_tcp(&[7, 8, 9]).ok().unwrap();
    assert_eq!(show(&sent), (0, "", vec![0, 0, 0, 3, 7, 8, 9], None));
}

#[test]
fn the_server_is_reached_over_udp() {
    let c = context(false);
    let sent = c.send_main(&[7, 8], v4(1));
    assert_eq!(show(&sent), (1, "", vec![7, 8], Some(mapped(1))));
    assert_eq!(sent.reported_len(1), 1);
    assert_eq!(c.send_main_tcp(&[7]).err(), Some(ChannelError::TcpNotFound));
}

#[test]
fn keys_lead_to_sockets() {
    let mut c = context(true);
    c.insert_udp(5, "five");
    let sent = c.send_by_key(&[1], &RouteKey::new(TCP_ID, v4(1))).ok().unwrap();
    assert_eq!(show(&sent), (0, "", vec![0, 0, 0, 1, 1], None));
    let sent = c.send_by_key(&[1], &RouteKey::new(UDP_ID, v4(1))).ok().unwrap();
    assert_eq!(show(&sent), (1, "", vec![1], Some(mapped(1))));
    let sent = c.try_send_by_key(&[1], &RouteKey::new(5, v4(1))).ok().unwrap();
    assert_eq!(show(&sent), (2, "five", vec![1], Some(v4(1))));
    assert_eq!(
        c.try_send_by_key(&[1], &RouteKey::new(6, v4(1))).err(),
        Some(ChannelError::RouteNotFound)
    );
    assert_eq!(c.get_udp_by_route(&RouteKey::new(5, v4(9))), Some(&"five"));
    c.remove_udp(5);
    assert_eq!(c.get_udp_by_route(&RouteKey::new(5, v4(9))), None);
    assert_eq!(
        c.send_by_key(&[1], &RouteKey::new(5, v4(1))).err(),
        Some(ChannelError::RouteNotFound)
    );
}

#[test]
fn peers_lead_to_sockets() {
    let mut c = context(false);
    c.insert_udp(5, "five");
    c.add_route_(7, Route::new(5, v4(1), 2, 30), false, 0);
    let sent = c.send_by_id(&[4], &7).ok().unwrap();
    assert_eq!(show(&sent), (2, "five", vec![4], Some(v4(1))));
    let sent = c.try_send_by_id(&[4], &7).ok().unwrap();
    assert_eq!(show(&sent), (2, "five", vec![4], Some(v4(1))));
    assert_eq!(
        c.send_by_id_at(&[4], &7, 6_000_000_001).err(),
        Some(ChannelError::RouteTimeOut)
    );
    assert_eq!(c.send_by_id(&[4], &8).err(), Some(ChannelError::RouteNotFound));
    c.add_route(9, Route::new(TCP_ID, v4(1), 1, 30));
    assert_eq!(c.send_by_id(&[4], &9).err(), Some(ChannelError::TcpNotFound));
}

#[test]
fn every_socket_sends() {
    let mut c = context(false);
    assert!(c.try_send_all(&[1], v4(1)).is_empty());
    c.insert_udp(5, "five");
    c.insert_udp(4, "four");
    let mut sent: Vec<_> =
        c.try_send_all(&[1, 2], v4(1)).iter().map(|(id, t)| (*id, show(t))).collect();
    sent.sort_by_key(|pair| pair.0);
    assert_eq!(
        sent,
        vec![
            (4, (2, "four", vec![1, 2], Some(v4(1)))),
            (5, (2, "five", vec![1, 2], Some(v4(1)))),
        ]
    );
}

#[test]
fn closing_goes_step_by_step() {
    let stop = CloseStep::SendStop {
        addr: SocketAddr::V4(SocketAddrV4 { ip: 0x7f00_0001, port: 99 }),
    };
    let mut c = context(true);
    assert_eq!(c.close(Some(99)), stop);
    assert!(c.is_close());
    assert_eq!(c.next_close_step(stop, true), CloseStep::ShutdownTcp);
    assert_eq!(c.next_close_step(stop, false), CloseStep::Failed);
    assert_eq!(c.next_close_step(CloseStep::ShutdownTcp, true), CloseStep::Done);
    assert_eq!(c.next_close_step(CloseStep::ShutdownTcp, false), CloseStep::Failed);
    assert_eq!(c.close(None), CloseStep::ShutdownTcp);

    let mut c = context(false);
    assert_eq!(c.close(Some(99)), stop);
    assert_eq!(c.next_close_step(stop, true), CloseStep::Done);
    assert_eq!(c.close(None), CloseStep::Done);
    assert_eq!(c.next_close_step(CloseStep::Done, true), CloseStep::Done);
    assert_eq!(c.next_close_step(CloseStep::Failed, true), CloseStep::Failed);
}

#[test]
fn the_local_port_is_that_of_the_address() {
    let port: Result<u16, u8> = Context::<u64>::main_local_udp_port(Ok(mapped(44)));
    assert_eq!(port, Ok(44));
    let port: Result<u16, u8> = Context::<u64>::main_local_udp_port(Err(3));
    assert_eq!(port, Err(3));
}
