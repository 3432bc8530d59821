use chatter::messages::ServerErrors;
use chatter::ws::{
    leak, ClientInner, Frame, Ingest, Outgoing, SocketInner, TaggedMessage, WsPool,
};

const ALICE: u128 = 0x550e8400_e29b_41d4_a716_446655440000;
const BOB: u128 = 0x6ba7b810_9dad_11d1_80b4_00c04fd430c8;

#[test]
fn new_socket_carries_no_identity() {
    let (socket, id) = SocketInner::new();
    assert_eq!(socket.id, id);
    assert_eq!(socket.user_id(), None);
}

#[test]
fn socket_authenticate_binds_the_identity() {
    let (mut socket, id) = SocketInner::new();
    socket.authenticate(ALICE);
    assert_eq!(socket.user_id(), Some(ALICE));
    assert_eq!(socket.id, id);
}

#[test]
fn client_holds_its_sockets_in_order() {
    let mut client = ClientInner::new(4);
    client.add_socket(9);
    client.add_socket(2);
    assert_eq!(client.send("x").targets, vec![4, 9, 2]);
}

#[test]
fn client_remove_socket_reports_what_is_left() {
    let mut client = ClientInner::new(4);
    client.add_socket(9);
    assert_eq!(client.remove_socket(4), 1);
    assert_eq!(client.send(()).targets, vec![9]);
    assert_eq!(client.remove_socket(4), 1);
    assert_eq!(client.remove_socket(9), 0);
    assert_eq!(client.send(()).targets, Vec::<usize>::new());
}

#[test]
fn client_remove_socket_takes_the_first_occurrence_only() {
    let mut client = ClientInner::new(4);
    client.add_socket(9);
    client.add_socket(4);
    assert_eq!(client.remove_socket(4), 2);
    assert_eq!(client.send(()).targets, vec![9, 4]);
}

#[test]
fn client_send_carries_the_message() {
    let client = ClientInner::new(4);
    assert_eq!(client.send("hello"), Outgoing { targets: vec![4], message: "hello" });
}

#[test]
fn new_pool_has_no_sockets() {
    let pool = WsPool::new();
    assert_eq!(pool.socket_count(), 0);
    assert_eq!(pool.send_to_user(ALICE, ()).targets, Vec::<usize>::new());
}

#[test]
fn add_connection_gives_ids_that_differ() {
    let mut pool = WsPool::new();
    let mut seen = Vec::new();
    for _ in 0..200 {
        let id = pool.add_connection();
        assert!(!seen.contains(&id));
        seen.push(id);
    }
    assert_eq!(pool.socket_count(), 200);
}

#[test]
fn new_connection_is_live_and_unbound() {
    let mut pool = WsPool::new();
    let id = pool.add_connection();
    assert_eq!(pool.user_id(id), None);
    assert_eq!(pool.send_to_socket(id, "x"), Outgoing { targets: vec![id], message: "x" });
}

#[test]
fn send_to_socket_that_is_not_live_goes_nowhere() {
    let mut pool = WsPool::new();
    let id = pool.add_connection();
    let other = id.wrapping_add(1);
    assert_eq!(pool.send_to_socket(other, "x").targets, Vec::<usize>::new());
}

#[test]
fn authenticate_binds_and_makes_the_client() {
    let mut pool = WsPool::new();
    let id = pool.add_connection();
    assert_eq!(pool.authenticate(ALICE, id), Ok(()));
    assert_eq!(pool.user_id(id), Some(ALICE));
    assert_eq!(pool.send_to_user(ALICE, ()).targets, vec![id]);
    assert_eq!(pool.send_to_user(BOB, ()).targets, Vec::<usize>::new());
}

#[test]
fn authenticate_again_is_turned_down_and_keeps_the_identity() {
    let mut pool = WsPool::new();
    let id = pool.add_connection();
    assert_eq!(pool.authenticate(ALICE, id), Ok(()));
    assert_eq!(pool.authenticate(BOB, id), Err(ServerErrors::AlreadyAuthenticated));
    assert_eq!(pool.authenticate(ALICE, id), Err(ServerErrors::AlreadyAuthenticated));
    assert_eq!(pool.user_id(id), Some(ALICE));
    assert_eq!(pool.send_to_user(ALICE, ()).targets, vec![id]);
    assert_eq!(pool.send_to_user(BOB, ()).targets, Vec::<usize>::new());
}

#[test]
fn authenticate_of_a_socket_that_is_not_live_changes_nothing() {
    let mut pool = WsPool::new();
    let id = pool.add_connection();
    let other = id.wrapping_add(1);
    assert_eq!(pool.authenticate(ALICE, other), Ok(()));
    assert_eq!(pool.user_id(other), None);
    assert_eq!(pool.send_to_user(ALICE, ()).targets, Vec::<usize>::new());
    assert_eq!(pool.socket_count(), 1);
}

#[test]
fn two_sockets_of_one_identity_share_one_client() {
    let mut pool = WsPool::new();
    let first = pool.add_connection();
    let second = pool.add_connection();
    assert_eq!(pool.authenticate(ALICE, first), Ok(()));
    assert_eq!(pool.authenticate(ALICE, second), Ok(()));
    assert_eq!(pool.send_to_user(ALICE, "m").targets, vec![first, second]);
}

#[test]
fn failed_write_removes_that_socket_only() {
    let mut pool = WsPool::new();
    let first = pool.add_connection();
    let second = pool.add_connection();
    let third = pool.add_connection();
    pool.authenticate(ALICE, first).unwrap();
    pool.authenticate(ALICE, second).unwrap();
    pool.authenticate(BOB, third).unwrap();
    let delivery = pool.send_to_user(ALICE, "m");
    assert_eq!(delivery.targets, vec![first, second]);
    pool.write_failed(first);
    assert_eq!(pool.send_to_user(ALICE, "m").targets, vec![second]);
    assert_eq!(pool.send_to_user(BOB, "m").targets, vec![third]);
    assert_eq!(pool.user_id(first), None);
    assert_eq!(pool.send_to_socket(first, "m").targets, Vec::<usize>::new());
    assert_eq!(pool.socket_count(), 2);
}

#[test]
fn last_socket_leaving_ends_the_client() {
    let mut pool = WsPool::new();
    let id = pool.add_connection();
    pool.authenticate(ALICE, id).unwrap();
    pool.remove_socket(id);
    assert_eq!(pool.send_to_user(ALICE, "m").targets, Vec::<usize>::new());
    assert_eq!(pool.send_to_users(&[ALICE], "m").targets, Vec::<usize>::new());
    assert_eq!(pool.socket_count(), 0);
}

#[test]
fn remove_socket_twice_is_remove_socket_once() {
    let mut pool = WsPool::new();
    let first = pool.add_connection();
    let second = pool.add_connection();
    pool.authenticate(ALICE, first).unwrap();
    pool.authenticate(ALICE, second).unwrap();
    pool.remove_socket(first);
    pool.remove_socket(first);
    assert_eq!(pool.socket_count(), 1);
    assert_eq!(pool.send_to_user(ALICE, ()).targets, vec![second]);
}

#[test]
fn remove_socket_without_identity_touches_no_client() {
    let mut pool = WsPool::new();
    let first = pool.add_connection();
    let second = pool.add_connection();
    pool.authenticate(ALICE, first).unwrap();
    pool.remove_socket(second);
    assert_eq!(pool.send_to_user(ALICE, ()).targets, vec![first]);
    assert_eq!(pool.socket_count(), 1);
}

#[test]
fn identity_can_be_bound_again_after_its_client_ended() {
    let mut pool = WsPool::new();
    let first = pool.add_connection();
    pool.authenticate(ALICE, first).unwrap();
    pool.remove_socket(first);
    let second = pool.add_connection();
    pool.authenticate(ALICE, second).unwrap();
    assert_eq!(pool.send_to_user(ALICE, ()).targets, vec![second]);
}

#[test]
fn send_to_users_goes_user_by_user() {
    let mut pool = WsPool::new();
    let a1 = pool.add_connection();
    let b1 = pool.add_connection();
    let b2 = pool.add_connection();
    pool.authenticate(ALICE, a1).unwrap();
    pool.authenticate(BOB, b1).unwrap();
    pool.authenticate(BOB, b2).unwrap();
    assert_eq!(
        pool.send_to_users(&[ALICE, BOB], "m"),
        Outgoing { targets: vec![a1, b1, b2], message: "m" }
    );
    assert_eq!(pool.send_to_users(&[BOB, ALICE], "m").targets, vec![b1, b2, a1]);
    assert_eq!(pool.send_to_users(&[ALICE, ALICE], "m").targets, vec![a1, a1]);
    assert_eq!(pool.send_to_users(&[], "m").targets, Vec::<usize>::new());
    assert_eq!(pool.send_to_users(&[7, BOB], "m").targets, vec![b1, b2]);
}

#[test]
fn ingest_tags_a_command_with_the_identity_of_its_socket() {
    let mut pool = WsPool::new();
    let id = pool.add_connection();
    assert_eq!(
        pool.ingest(id, Frame::Text(Some("ping"))),
        Ingest::Forward(TaggedMessage { socket_id: id, user_id: None, message: "ping" })
    );
    pool.authenticate(ALICE, id).unwrap();
    assert_eq!(
        pool.ingest(id, Frame::Text(Some("ping"))),
        Ingest::Forward(TaggedMessage { socket_id: id, user_id: Some(ALICE), message: "ping" })
    );
}

#[test]
fn ingest_drops_what_is_no_command() {
    let mut pool = WsPool::new();
    let id = pool.add_connection();
    assert_eq!(pool.ingest::<u8>(id, Frame::Text(None)), Ingest::Skip);
    assert_eq!(pool.ingest::<u8>(id, Frame::Other), Ingest::Skip);
}

#[test]
fn ingest_stops_on_close_and_on_failure() {
    let mut pool = WsPool::new();
    let id = pool.add_connection();
    assert_eq!(pool.ingest::<u8>(id, Frame::Close), Ingest::Stop);
    assert_eq!(pool.ingest::<u8>(id, Frame::Failed), Ingest::Stop);
}

#[test]
fn leak_keeps_the_value() {
    let kept: &'static Vec<u32> = leak(vec![1, 2, 3]);
    assert_eq!(kept, &vec![1, 2, 3]);
}
