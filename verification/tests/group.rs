use vnt_channel::addr::{SocketAddr, SocketAddrV4};
use vnt_channel::group::buf_channel_group;
use vnt_channel::route::RouteKey;
use vnt_channel::watch::worker_group;

fn key(port: u16) -> RouteKey {
    RouteKey::new(1, SocketAddr::V4(SocketAddrV4 { ip: 0x0a00_0001, port }))
}

#[test]
fn packets_go_round() {
    let (mut senders, receivers) = buf_channel_group(2);
    assert!(senders.send((vec![1, 2], 0, 2, key(7))));
    assert!(senders.send((vec![3], 0, 1, key(8))));
    assert_eq!(receivers.0[0].recv().unwrap(), (vec![1, 2], 0, 2, key(7)));
    assert_eq!(receivers.0[1].recv().unwrap(), (vec![3], 0, 1, key(8)));
    assert!(senders.send((vec![4], 0, 1, key(9))));
    assert_eq!(receivers.0[0].recv().unwrap(), (vec![4], 0, 1, key(9)));
    assert!(receivers.0[1].try_recv().is_err());
}

#[test]
fn a_worker_that_is_gone_takes_nothing() {
    let (mut senders, mut receivers) = buf_channel_group(3);
    drop(receivers.0.remove(1));
    assert!(senders.send((vec![1], 0, 1, key(1))));
    assert!(!senders.send((vec![2], 0, 1, key(2))));
    assert!(senders.send((vec![3], 0, 1, key(3))));
    assert_eq!(receivers.0[0].recv().unwrap().0, vec![1]);
    assert_eq!(receivers.0[1].recv().unwrap().0, vec![3]);
    assert!(receivers.0[0].try_recv().is_err());
}

#[test]
fn clones_take_their_turns_apart() {
    let (mut a, receivers) = buf_channel_group(2);
    assert!(a.send((vec![1], 0, 1, key(1))));
    assert_eq!(receivers.0[0].recv().unwrap().0, vec![1]);
    let mut b = a.clone();
    assert!(b.send((vec![2], 0, 1, key(2))));
    assert_eq!(receivers.0[1].recv().unwrap().0, vec![2]);
    assert!(a.send((vec![3], 0, 1, key(3))));
    assert_eq!(receivers.0[1].recv().unwrap().0, vec![3]);
}

#[test]
fn an_empty_group_has_no_channels() {
    let (_, receivers) = buf_channel_group(0);
    assert_eq!(receivers.0.len(), 0);
}

#[test]
fn one_thread_needs_no_group() {
    assert!(worker_group(0).is_none());
    assert!(worker_group(1).is_none());
    let (_, receivers) = worker_group(2).unwrap();
    assert_eq!(receivers.0.len(), 2);
}

#[test]
fn a_round_from_any_turn_reaches_every_worker_once() {
    let (mut senders, receivers) = buf_channel_group(3);
    assert_eq!(senders.take_turn(), 0);
    assert_eq!(senders.take_turn(), 1);
    for n in 0..3u8 {
        assert!(senders.send((vec![n], 0, 1, key(1))));
    }
    let got: Vec<Vec<u8>> = receivers.0.iter().map(|r| r.recv().unwrap().0).collect();
    assert_eq!(got, vec![vec![1], vec![2], vec![0]]);
    assert!(receivers.0.iter().all(|r| r.try_recv().is_err()));
    assert_eq!(senders.take_turn(), 2);
}
