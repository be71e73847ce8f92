use vnt_channel::addr::{SocketAddr, SocketAddrV4};
use vnt_channel::context::Context;
use vnt_channel::error::ChannelError;
use vnt_channel::route::{NatType, Route, Status};

const SECOND: u128 = 1_000_000_000;

fn addr(port: u16) -> SocketAddr {
    SocketAddr::V4(SocketAddrV4 { ip: 0x0a1a_0002, port })
}

fn route(port: u16, metric: u8, rt: i64) -> Route {
    Route::new(5, addr(port), metric, rt)
}

fn context(first_latency: bool) -> Context<u64> {
    Context::new(false, 1, first_latency)
}

#[test]
fn a_new_context_knows_nothing() {
    let c: Context<u64> = Context::new(true, 9, true);
    assert_eq!(c.route(&1), None);
    assert_eq!(c.route_one(&1), None);
    assert!(c.need_punch(&1));
    assert!(c.is_cone());
    assert!(!c.is_close());
    assert!(c.is_main_tcp());
    assert!(c.is_first_latency());
    assert!(c.route_table().is_empty());
    assert_eq!(c.get_route_by_id(&1), Err(ChannelError::RouteNotFound));
}

#[test]
fn status_follows_the_switches() {
    let mut c = context(false);
    c.switch(NatType::Symmetric);
    assert_eq!(c.status(), Status::Symmetric);
    assert!(!c.is_cone());
    c.switch(NatType::Cone);
    assert!(c.is_cone());
    c.switch_to_symmetric();
    assert_eq!(c.status(), Status::Symmetric);
    c.switch_to_cone();
    assert_eq!(c.status(), Status::Cone);
}

#[test]
fn an_offered_route_is_known() {
    let mut c = context(false);
    c.add_route(7, route(1, 2, 30));
    assert_eq!(c.route(&7), Some(vec![route(1, 2, 30)]));
    assert_eq!(c.route_one(&7), Some(route(1, 2, 30)));
    assert_eq!(c.route(&8), None);
}

#[test]
fn a_known_route_is_brought_up_to_date() {
    let mut c = context(true);
    c.add_route(7, route(1, 2, 30));
    c.add_route(7, route(2, 2, 40));
    c.add_route(7, route(2, 1, 10));
    assert_eq!(c.route(&7), Some(vec![route(2, 1, 10), route(1, 2, 30)]));
}

#[test]
fn a_known_route_is_kept_if_only_absent_ones_are_wanted() {
    let mut c = context(true);
    c.add_route(7, route(1, 2, 30));
    c.add_route_if_absent(7, route(1, 1, 10));
    assert_eq!(c.route(&7), Some(vec![route(1, 2, 30)]));
    c.add_route_if_absent(7, route(2, 1, 10));
    assert_eq!(c.route(&7), Some(vec![route(1, 2, 30), route(2, 1, 10)]));
}

#[test]
fn a_longer_route_is_turned_away() {
    let mut c = context(false);
    c.add_route(7, route(1, 1, 30));
    c.add_route(7, route(2, 2, 10));
    assert_eq!(c.route(&7), Some(vec![route(1, 1, 30)]));
    c.add_route(7, route(1, 2, 10));
    assert_eq!(c.route(&7), Some(vec![route(1, 1, 30)]));
}

#[test]
fn a_longer_route_is_taken_if_latency_comes_first() {
    let mut c = context(true);
    c.add_route(7, route(1, 1, 30));
    c.add_route(7, route(2, 2, 10));
    assert_eq!(c.route(&7), Some(vec![route(1, 1, 30), route(2, 2, 10)]));
}

#[test]
fn a_direct_route_drives_relayed_ones_out() {
    let mut c = context(false);
    c.add_route(7, route(1, 2, 30));
    c.add_route(7, route(2, 2, 20));
    assert_eq!(c.route(&7), Some(vec![route(1, 2, 30), route(2, 2, 20)]));
    c.add_route(7, route(3, 1, 90));
    assert_eq!(c.route(&7), Some(vec![route(3, 1, 90)]));
}

#[test]
fn the_fastest_routes_stay() {
    let mut c = context(false);
    c.add_route(7, route(1, 2, 30));
    c.add_route(7, route(2, 2, 20));
    c.add_route(7, route(3, 2, 90));
    assert_eq!(c.route(&7), Some(vec![route(2, 2, 20), route(3, 2, 90)]));

    let mut c = context(true);
    c.add_route(7, route(1, 2, 30));
    c.add_route(7, route(2, 2, 20));
    c.add_route(7, route(3, 2, 90));
    assert_eq!(c.route(&7), Some(vec![route(2, 2, 20), route(1, 2, 30), route(3, 2, 90)]));
    c.add_route(7, route(4, 3, 5));
    assert_eq!(c.route(&7), Some(vec![route(2, 2, 20), route(1, 2, 30), route(4, 3, 5)]));
}

#[test]
fn equal_round_trip_times_keep_their_order() {
    let mut c = context(true);
    c.add_route(7, route(1, 2, 20));
    c.add_route(7, route(2, 2, 20));
    c.add_route(7, route(3, 2, 20));
    c.add_route(7, route(4, 2, 20));
    assert_eq!(c.route(&7), Some(vec![route(1, 2, 20), route(2, 2, 20), route(4, 2, 20)]));
}

#[test]
fn a_removed_route_is_gone() {
    let mut c = context(true);
    c.add_route(7, route(1, 2, 30));
    c.add_route(7, route(2, 2, 40));
    c.remove_route(&7, route(1, 9, 9).route_key());
    assert_eq!(c.route(&7), Some(vec![route(2, 2, 40)]));
    c.remove_route(&7, route(1, 9, 9).route_key());
    assert_eq!(c.route(&7), Some(vec![route(2, 2, 40)]));
    c.remove_route(&7, route(2, 9, 9).route_key());
    assert_eq!(c.route(&7), Some(vec![]));
    assert_eq!(c.route_one(&7), None);
    assert_eq!(c.get_route_by_id(&7), Err(ChannelError::RouteNotFound));
    c.remove_route(&8, route(2, 9, 9).route_key());
    assert_eq!(c.route(&8), None);
}

#[test]
fn other_peers_are_untouched() {
    let mut c = context(false);
    c.add_route(7, route(1, 2, 30));
    c.add_route(8, route(2, 1, 40));
    c.remove_route(&7, route(1, 2, 30).route_key());
    assert_eq!(c.route(&8), Some(vec![route(2, 1, 40)]));
}

#[test]
fn an_unmeasured_route_is_not_used() {
    let mut c = context(false);
    c.add_route(7, route(1, 1, 199));
    assert_eq!(c.get_route_by_id(&7), Err(ChannelError::RouteNotFound));
    c.add_route(7, route(1, 1, 198));
    assert_eq!(c.get_route_by_id(&7), Ok(route(1, 1, 198)));
}

#[test]
fn a_silent_relayed_route_is_not_used() {
    let mut c = context(false);
    c.add_route_(7, route(1, 2, 30), false, 10 * SECOND);
    assert_eq!(c.get_route_by_id_at(&7, 16 * SECOND), Ok(route(1, 2, 30)));
    assert_eq!(c.get_route_by_id_at(&7, 16 * SECOND + 1), Err(ChannelError::RouteTimeOut));
    assert_eq!(c.get_route_by_id_at(&7, 0), Ok(route(1, 2, 30)));
    c.update_read_time_at(&7, &route(1, 2, 30).route_key(), 16 * SECOND);
    assert_eq!(c.get_route_by_id_at(&7, 22 * SECOND), Ok(route(1, 2, 30)));
    assert_eq!(c.get_route_by_id_at(&7, 23 * SECOND), Err(ChannelError::RouteTimeOut));
    c.update_read_time_at(&7, &route(2, 2, 30).route_key(), 23 * SECOND);
    assert_eq!(c.get_route_by_id_at(&7, 23 * SECOND), Err(ChannelError::RouteTimeOut));
    c.update_read_time_at(&8, &route(1, 2, 30).route_key(), 23 * SECOND);
    assert_eq!(c.route(&8), None);
}

#[test]
fn a_silent_direct_route_is_used() {
    let mut c = context(false);
    c.add_route_(7, route(1, 1, 30), false, 0);
    assert_eq!(c.get_route_by_id_at(&7, 1000 * SECOND), Ok(route(1, 1, 30)));
}

#[test]
fn a_refreshed_route_is_heard_of() {
    let mut c = context(false);
    c.add_route_(7, route(1, 2, 30), false, 0);
    c.add_route_(7, route(1, 2, 25), false, 10 * SECOND);
    assert_eq!(c.get_route_by_id_at(&7, 16 * SECOND), Ok(route(1, 2, 25)));
}

#[test]
fn the_clock_runs() {
    let mut c = context(false);
    c.add_route_(7, route(1, 2, 30), false, 0);
    // The clock of the context started a moment ago, so the route is fresh.
    assert_eq!(c.get_route_by_id(&7), Ok(route(1, 2, 30)));
    c.update_read_time(&7, &route(1, 2, 30).route_key());
    // Far in the future the time that was noted is long past.
    assert_eq!(c.get_route_by_id_at(&7, 86_400 * SECOND), Err(ChannelError::RouteTimeOut));
    // The clock has moved on from zero by the time that it is read.
    assert_eq!(c.get_route_by_id_at(&7, 6 * SECOND), Ok(route(1, 2, 30)));
    assert_eq!(c.get_route_by_id_at(&7, 6 * SECOND + 1), Ok(route(1, 2, 30)));
}

#[test]
fn punching_ends_with_a_direct_route() {
    let mut c = context(false);
    c.add_route(7, route(1, 2, 30));
    assert!(c.need_punch(&7));
    c.add_route(7, route(2, 1, 30));
    assert!(!c.need_punch(&7));
    c.remove_route(&7, route(2, 1, 30).route_key());
    assert!(c.need_punch(&7));
}

#[test]
fn a_direct_route_leads_back_to_its_peer() {
    let mut c = context(true);
    c.add_route(7, route(1, 2, 30));
    c.add_route(8, route(2, 1, 30));
    assert_eq!(c.route_to_id(&route(1, 0, 0).route_key()), None);
    assert_eq!(c.route_to_id(&route(2, 0, 0).route_key()), Some(8));
    assert_eq!(c.route_to_id(&route(3, 0, 0).route_key()), None);
}

#[test]
fn tables_list_each_peer_once() {
    let mut c = context(true);
    c.add_route(7, route(1, 2, 30));
    c.add_route(7, route(2, 1, 40));
    c.add_route(8, route(3, 1, 50));
    c.add_route(9, route(4, 1, 60));
    c.remove_route(&9, route(4, 1, 60).route_key());

    let mut all = c.route_table();
    all.sort_by_key(|pair| pair.0);
    assert_eq!(
        all,
        vec![
            (7, vec![route(1, 2, 30), route(2, 1, 40)]),
            (8, vec![route(3, 1, 50)]),
            (9, vec![]),
        ]
    );
    let mut first = c.route_table_one();
    first.sort_by_key(|pair| pair.0);
    assert_eq!(first, vec![(7, route(1, 2, 30)), (8, route(3, 1, 50))]);
    assert_eq!(c.direct_route_table_one(), vec![(8, route(3, 1, 50))]);
}

#[test]
fn hearing_of_a_route_changes_no_route() {
    let mut c = context(true);
    c.add_route(7, route(1, 2, 30));
    c.add_route(7, route(2, 1, 20));
    c.update_read_time(&7, &route(2, 1, 20).route_key());
    assert_eq!(c.route(&7), Some(vec![route(1, 2, 30), route(2, 1, 20)]));
}
