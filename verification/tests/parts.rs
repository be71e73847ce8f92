use vnt_channel::addr::{SocketAddr, SocketAddrV4};
use vnt_channel::context::{Context, Transmission};
use vnt_channel::error::ChannelError;
use vnt_channel::frame::frame_head;
use vnt_channel::route::{RouteKey, Status, TCP_ID, UDP_ID};
use vnt_channel::tcp::{keep_link, LinkAction, LinkEvent, TcpAction, TcpEvent, TcpReader, TcpStage};
use vnt_channel::udp::{stop_message, ExtraUdp, MainUdp, Reception, UdpAction, UdpEvent};
use vnt_channel::watch::{StatusWatch, WatchAction, WatchEvent};

fn addr() -> SocketAddr {
    SocketAddr::V4(SocketAddrV4 { ip: 0x0808_0808, port: 53 })
}

#[test]
fn a_frame_is_read_back() {
    let key = RouteKey::new(TCP_ID, addr());
    let mut reader = TcpReader::new(addr(), 14);
    assert_eq!(reader.step(TcpEvent::Round { closed: false }), TcpAction::ReadHead);
    let head = frame_head(300);
    assert!(reader.fits(head));
    assert_eq!(
        reader.step(TcpEvent::HeadRead { head }),
        TcpAction::ReadBody { start: 14, end: 314 }
    );
    assert_eq!(
        reader.step(TcpEvent::BodyRead),
        TcpAction::Handle { start: 14, end: 314, key }
    );
    assert_eq!(reader.stage, TcpStage::Round);
    assert_eq!(reader.step(TcpEvent::Round { closed: true }), TcpAction::Finish);
    assert_eq!(reader.stage, TcpStage::Ended);
}

#[test]
fn a_reader_fails() {
    let mut reader = TcpReader::new(addr(), 0);
    reader.step(TcpEvent::Round { closed: false });
    assert_eq!(
        reader.step(TcpEvent::HeadRead { head: [0, 0, 0, 11] }),
        TcpAction::Fail { error: ChannelError::LengthOverflow }
    );
    let mut reader = TcpReader::new(addr(), 0);
    reader.step(TcpEvent::Round { closed: false });
    assert_eq!(reader.step(TcpEvent::ReadFailed), TcpAction::FailRead);
    assert_eq!(reader.stage, TcpStage::Ended);
}

#[test]
fn a_long_packet_does_not_fit_behind_the_reserve() {
    let reader = TcpReader::new(addr(), 14);
    assert!(reader.fits(frame_head(4082)));
    assert!(!reader.fits(frame_head(4083)));
    assert!(reader.fits(frame_head(4097)));
    assert!(!TcpReader::new(addr(), 5000).fits(frame_head(12)));
    assert!(TcpReader::new(addr(), 5000).fits(frame_head(11)));
}

#[test]
fn the_link_is_kept_up() {
    assert_eq!(
        keep_link(LinkEvent::Installed),
        LinkAction::Configure { nodelay: true, write_timeout: 3, read_timeout: 10 }
    );
    assert_eq!(keep_link(LinkEvent::Configured), LinkAction::Read);
    assert_eq!(keep_link(LinkEvent::ReaderEnded), LinkAction::ShutDown);
    assert_eq!(keep_link(LinkEvent::ShutDown { closed: false }), LinkAction::Connect);
    assert_eq!(keep_link(LinkEvent::ShutDown { closed: true }), LinkAction::Return);
    assert_eq!(keep_link(LinkEvent::Connected), LinkAction::Install);
    assert_eq!(keep_link(LinkEvent::ConnectFailed), LinkAction::Pause { seconds: 3 });
    assert_eq!(keep_link(LinkEvent::Paused { closed: false }), LinkAction::Connect);
    assert_eq!(keep_link(LinkEvent::Paused { closed: true }), LinkAction::Return);
}

#[test]
fn the_main_socket_stops_when_the_channel_is_closed() {
    assert_eq!(&stop_message(), b"stop");
    let mut context: Context<u64> = Context::new(false, 1, false);
    let main = MainUdp::new(UDP_ID, 2);
    let stop = Reception::Datagram { len: 4, addr: addr() };
    let deliver = UdpAction::Deliver { start: 2, end: 6, key: RouteKey::new(UDP_ID, addr()) };
    assert_eq!(main.on_reception(&context, b"..stop..", stop), deliver);
    context.close(None);
    assert_eq!(main.on_reception(&context, b"..stop..", stop), UdpAction::Leave);
    assert_eq!(main.on_reception(&context, b"..stoq..", stop), deliver);
    assert_eq!(
        main.on_reception(&context, b"..stop..", Reception::Datagram { len: 5, addr: addr() }),
        UdpAction::Deliver { start: 2, end: 7, key: RouteKey::new(UDP_ID, addr()) }
    );
    assert_eq!(
        main.on_reception(&context, b"..stop..", Reception::Failed),
        UdpAction::Wait
    );
    assert_eq!(main.on_delivered(true), UdpAction::Wait);
    assert_eq!(main.on_delivered(false), UdpAction::Wait);
    assert!(main.leave());
}

#[test]
fn an_extra_socket_comes_and_goes() {
    let mut context: Context<&str> = Context::new(false, 1, false);
    let extra = ExtraUdp::open(&mut context, 7, "seven", 10, false);
    let key = RouteKey::new(10, addr());
    assert_eq!(context.get_udp_by_route(&key), Some(&"seven"));
    assert_eq!(
        extra.on_event(UdpEvent::Datagram { len: 4, addr: addr() }),
        UdpAction::Deliver { start: 10, end: 14, key }
    );
    assert_eq!(extra.on_event(UdpEvent::ReceiveFailed), UdpAction::Wait);
    assert_eq!(extra.on_event(UdpEvent::Delivered { taken: true }), UdpAction::Wait);
    assert_eq!(extra.on_event(UdpEvent::Delivered { taken: false }), UdpAction::Leave);
    assert_eq!(
        extra.on_event(UdpEvent::StatusChanged { status: Status::Symmetric }),
        UdpAction::Wait
    );
    assert_eq!(
        extra.on_event(UdpEvent::StatusChanged { status: Status::Cone }),
        UdpAction::Leave
    );
    assert_eq!(
        extra.on_event(UdpEvent::StatusChanged { status: Status::Close }),
        UdpAction::Leave
    );
    assert_eq!(extra.on_event(UdpEvent::StatusLost), UdpAction::Leave);
    assert_eq!(extra.on_event(UdpEvent::Stopped), UdpAction::Leave);
    assert!(!extra.leave(&mut context));
    assert_eq!(context.get_udp_by_route(&key), None);
}

#[test]
fn a_core_socket_outlasts_the_cone() {
    let mut context: Context<&str> = Context::new(false, 1, false);
    let core = ExtraUdp::open(&mut context, 0, "zero", 0, true);
    assert_eq!(
        core.on_event(UdpEvent::StatusChanged { status: Status::Cone }),
        UdpAction::Wait
    );
    assert_eq!(
        core.on_event(UdpEvent::StatusChanged { status: Status::Close }),
        UdpAction::Leave
    );
    assert!(core.leave(&mut context));
}

#[test]
fn extra_sockets_are_opened_once() {
    let symmetric = WatchEvent::StatusChanged { status: Status::Symmetric };
    let cone = WatchEvent::StatusChanged { status: Status::Cone };
    let mut watch = StatusWatch::new(84, false);
    assert_eq!(watch.on_event(cone), WatchAction::Wait);
    assert_eq!(watch.on_event(symmetric), WatchAction::Open { count: 84, is_core: false });
    assert_eq!(watch.on_event(symmetric), WatchAction::Wait);
    assert_eq!(watch.on_event(cone), WatchAction::Wait);
    assert_eq!(watch.on_event(symmetric), WatchAction::Open { count: 84, is_core: false });
    assert_eq!(
        watch.on_event(WatchEvent::StatusChanged { status: Status::Close }),
        WatchAction::StopAll
    );
    assert_eq!(watch.on_event(WatchEvent::StatusLost), WatchAction::StopAll);
    assert_eq!(watch.on_event(WatchEvent::Stopped), WatchAction::StopAll);
}

#[test]
fn a_relay_only_waits_for_the_end() {
    let mut watch = StatusWatch::new(84, true);
    assert_eq!(watch.on_event(WatchEvent::Stopped), WatchAction::End);
}

#[test]
fn sockets_asked_for_add_up() {
    let statuses = [
        Status::Symmetric,
        Status::Symmetric,
        Status::Cone,
        Status::Cone,
        Status::Symmetric,
        Status::Cone,
        Status::Symmetric,
        Status::Symmetric,
    ];
    let mut watch = StatusWatch::new(5, false);
    let mut asked = 0;
    for status in statuses {
        match watch.on_event(WatchEvent::StatusChanged { status }) {
            WatchAction::Open { count, .. } => asked += count,
            action => assert_eq!(action, WatchAction::Wait),
        }
    }
    assert_eq!(asked, 15);
}

#[test]
fn a_stream_is_read_back() {
    let context: Context<u64> = Context::new(true, 1, false);
    let packets: [Vec<u8>; 3] = [vec![1; 12], (0..=255).chain(0..=43).collect(), vec![7; 4082]];
    let mut stream: Vec<u8> = vec![];
    for packet in &packets {
        if let Ok(Transmission::MainTcp { head, packet }) = context.send_main_tcp(packet) {
            stream.extend_from_slice(&head);
            stream.extend_from_slice(packet);
        }
    }
    assert_eq!(stream.len(), 3 * 4 + 12 + 300 + 4082);

    let mut reader = TcpReader::new(addr(), 14);
    let mut got: Vec<Vec<u8>> = vec![];
    let mut at = 0;
    while at < stream.len() {
        assert_eq!(reader.step(TcpEvent::Round { closed: false }), TcpAction::ReadHead);
        let head = [stream[at], stream[at + 1], stream[at + 2], stream[at + 3]];
        at += 4;
        assert!(reader.fits(head));
        let (start, end) = match reader.step(TcpEvent::HeadRead { head }) {
            TcpAction::ReadBody { start, end } => (start, end),
            action => panic!("{:?}", action),
        };
        assert_eq!(
            reader.step(TcpEvent::BodyRead),
            TcpAction::Handle { start, end, key: RouteKey::new(TCP_ID, addr()) }
        );
        got.push(stream[at..at + end - start].to_vec());
        at += end - start;
    }
    assert_eq!(got, packets);
}
