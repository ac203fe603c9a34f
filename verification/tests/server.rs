use esp_webdav::esp_wifi::{Action, ConnectivityState, LinkEvent, Progress, WifiLoop};
use esp_webdav::dav_handler::{
    bind_address, hyper_server, ConnEvent, Directive, Listener, Outcome, Phase, RequestServer,
    ServerError,
};

fn listening(limit: usize) -> RequestServer {
    let mut server = hyper_server("/vfat", 3000, limit);
    server.bound(Ok(())).unwrap();
    server
}

fn outcome(directive: Directive, admitted: Option<u64>) -> Outcome {
    Outcome { directive, admitted }
}

#[test]
fn bind_address_is_every_interface_at_the_port() {
    assert_eq!(bind_address(3000), "0.0.0.0:3000");
    assert_eq!(bind_address(0), "0.0.0.0:0");
    assert_eq!(bind_address(7), "0.0.0.0:7");
    assert_eq!(bind_address(80), "0.0.0.0:80");
    assert_eq!(bind_address(65535), "0.0.0.0:65535");
    assert_eq!(bind_address(1_000_000), "0.0.0.0:1000000");
    assert_eq!(bind_address(u32::MAX), "0.0.0.0:4294967295");
}

#[test]
fn bind_address_matches_plain_formatting() {
    let ports: [u32; 8] = [1, 9, 10, 99, 100, 101, 8080, 4_000_000_009];
    for port in ports {
        assert_eq!(bind_address(port), format!("0.0.0.0:{}", port));
    }
}

#[test]
fn new_server_is_unbound_and_empty() {
    let server = hyper_server("/vfat", 3000, 2);
    assert_eq!(server.root(), "/vfat");
    assert_eq!(server.port(), 3000);
    assert_eq!(server.bind_address(), "0.0.0.0:3000");
    assert_eq!(server.listener(), Listener::Unbound);
    assert_eq!(server.connections(), 0);
    assert_eq!(server.in_flight(), 0);
    assert_eq!(server.capacity(), 2);
    assert_eq!(server.parked(), 0);
}

#[test]
fn binding_starts_the_listener() {
    let mut server = hyper_server("/vfat", 3000, 2);
    assert_eq!(server.bound(Ok(())), Ok(()));
    assert_eq!(server.listener(), Listener::Listening);
    assert_eq!(server.bound(Ok(())), Err(ServerError::NotListening));
    assert_eq!(server.listener(), Listener::Listening);
}

#[test]
fn failed_bind_is_fatal() {
    let mut server = hyper_server("/vfat", 3000, 2);
    assert_eq!(server.bound(Err(98)), Err(ServerError::BindFailed(98)));
    assert_eq!(server.listener(), Listener::Stopped);
    assert_eq!(server.accept(Ok(())), Err(ServerError::NotListening));
    assert_eq!(server.bound(Ok(())), Err(ServerError::NotListening));
}

#[test]
fn accept_before_bind_is_refused() {
    let mut server = hyper_server("/vfat", 3000, 2);
    assert_eq!(server.accept(Ok(())), Err(ServerError::NotListening));
    assert_eq!(server.connections(), 0);
}

#[test]
fn failed_accept_stops_the_listener_only() {
    let mut server = listening(1);
    let a = server.accept(Ok(())).unwrap();
    assert_eq!(server.on_event(a, ConnEvent::RequestRead), outcome(Directive::Forward, None));
    assert_eq!(server.accept(Err(24)), Err(ServerError::AcceptFailed(24)));
    assert_eq!(server.listener(), Listener::Stopped);
    assert_eq!(server.accept(Ok(())), Err(ServerError::NotListening));
    // The connection that was live goes on.
    assert_eq!(server.phase(a), Some(Phase::Handling));
    assert_eq!(server.on_event(a, ConnEvent::HandlerDone), outcome(Directive::Respond, None));
}

#[test]
fn connections_are_accepted_without_bound() {
    let mut server = listening(2);
    for expected in 0u64..200 {
        assert_eq!(server.accept(Ok(())), Ok(expected));
    }
    assert_eq!(server.connections(), 200);
    assert_eq!(server.in_flight(), 0);
    for conn in 0u64..200 {
        assert_eq!(server.phase(conn), Some(Phase::Reading));
    }
    assert_eq!(server.phase(200), None);
}

#[test]
fn connections_are_accepted_while_the_handler_is_full() {
    let mut server = listening(1);
    let a = server.accept(Ok(())).unwrap();
    let b = server.accept(Ok(())).unwrap();
    server.on_event(a, ConnEvent::RequestRead);
    server.on_event(b, ConnEvent::RequestRead);
    assert_eq!(server.capacity(), 0);
    assert_eq!(server.parked(), 1);
    let c = server.accept(Ok(())).unwrap();
    assert_eq!(server.phase(c), Some(Phase::Reading));
    assert_eq!(server.connections(), 3);
}

#[test]
fn one_request_goes_through_the_cycle() {
    let mut server = listening(2);
    let conn = server.accept(Ok(())).unwrap();
    assert_eq!(server.phase(conn), Some(Phase::Reading));
    assert_eq!(server.on_event(conn, ConnEvent::RequestRead), outcome(Directive::Forward, None));
    assert_eq!(server.phase(conn), Some(Phase::Handling));
    assert_eq!(server.in_flight(), 1);
    assert_eq!(server.capacity(), 1);
    assert_eq!(server.on_event(conn, ConnEvent::HandlerDone), outcome(Directive::Respond, None));
    assert_eq!(server.phase(conn), Some(Phase::Reading));
    assert_eq!(server.in_flight(), 0);
    assert_eq!(server.capacity(), 2);
    assert_eq!(server.on_event(conn, ConnEvent::RequestRead), outcome(Directive::Forward, None));
    assert_eq!(server.on_event(conn, ConnEvent::HandlerDone), outcome(Directive::Respond, None));
    assert_eq!(server.on_event(conn, ConnEvent::PeerClosed), outcome(Directive::Close, None));
    assert_eq!(server.phase(conn), None);
    assert_eq!(server.connections(), 0);
}

#[test]
fn five_clients_two_at_a_time() {
    let mut server = listening(2);
    let mut conns: Vec<u64> = Vec::new();
    for _ in 0..5 {
        conns.push(server.accept(Ok(())).unwrap());
    }
    let mut with_handler: Vec<u64> = Vec::new();
    for &conn in &conns {
        let out = server.on_event(conn, ConnEvent::RequestRead);
        assert_eq!(out.admitted, None);
        if out.directive == Directive::Forward {
            with_handler.push(conn);
        } else {
            assert_eq!(out.directive, Directive::Park);
        }
        assert!(server.in_flight() <= 2);
    }
    assert_eq!(with_handler, vec![conns[0], conns[1]]);
    assert_eq!(server.in_flight(), 2);
    assert_eq!(server.parked(), 3);
    let mut completed: Vec<u64> = Vec::new();
    while !with_handler.is_empty() {
        // Sampled at every instant: exactly two while anyone is parked.
        if server.parked() > 0 {
            assert_eq!(server.in_flight(), 2);
        }
        assert_eq!(server.in_flight(), with_handler.len());
        let conn = with_handler.remove(0);
        let out = server.on_event(conn, ConnEvent::HandlerDone);
        assert_eq!(out.directive, Directive::Respond);
        completed.push(conn);
        if let Some(next) = out.admitted {
            assert_eq!(server.phase(next), Some(Phase::Handling));
            with_handler.push(next);
        }
        assert!(server.in_flight() <= 2);
    }
    assert_eq!(completed, conns);
    assert_eq!(server.in_flight(), 0);
    assert_eq!(server.parked(), 0);
    assert_eq!(server.capacity(), 2);
    for &conn in &conns {
        assert_eq!(server.phase(conn), Some(Phase::Reading));
    }
}

#[test]
fn parked_requests_are_admitted_in_arrival_order() {
    let mut server = listening(1);
    let a = server.accept(Ok(())).unwrap();
    let b = server.accept(Ok(())).unwrap();
    let c = server.accept(Ok(())).unwrap();
    assert_eq!(server.on_event(c, ConnEvent::RequestRead), outcome(Directive::Forward, None));
    assert_eq!(server.on_event(a, ConnEvent::RequestRead), outcome(Directive::Park, None));
    assert_eq!(server.on_event(b, ConnEvent::RequestRead), outcome(Directive::Park, None));
    assert_eq!(server.phase(a), Some(Phase::Waiting));
    assert_eq!(server.on_event(c, ConnEvent::HandlerDone), outcome(Directive::Respond, Some(a)));
    assert_eq!(server.phase(a), Some(Phase::Handling));
    assert_eq!(server.phase(b), Some(Phase::Waiting));
    assert_eq!(server.on_event(a, ConnEvent::HandlerDone), outcome(Directive::Respond, Some(b)));
    assert_eq!(server.on_event(b, ConnEvent::HandlerDone), outcome(Directive::Respond, None));
}

#[test]
fn dropped_connection_returns_its_ticket() {
    let mut server = listening(2);
    let a = server.accept(Ok(())).unwrap();
    let b = server.accept(Ok(())).unwrap();
    server.on_event(a, ConnEvent::RequestRead);
    server.on_event(b, ConnEvent::RequestRead);
    assert_eq!(server.capacity(), 0);
    // The connection drops while its request is with the handler.
    assert_eq!(server.on_event(a, ConnEvent::TransportError), outcome(Directive::Close, None));
    assert_eq!(server.capacity(), 1);
    assert_eq!(server.phase(a), None);
    assert_eq!(server.on_event(b, ConnEvent::PeerClosed), outcome(Directive::Close, None));
    assert_eq!(server.capacity(), 2);
    assert_eq!(server.in_flight(), 0);
    assert_eq!(server.connections(), 0);
    // A late report for the dropped connection frees nothing twice.
    assert_eq!(server.on_event(a, ConnEvent::HandlerDone), outcome(Directive::Ignore, None));
    assert_eq!(server.on_event(a, ConnEvent::TransportError), outcome(Directive::Ignore, None));
    assert_eq!(server.capacity(), 2);
}

#[test]
fn dropped_connection_hands_its_ticket_to_a_parked_one() {
    let mut server = listening(1);
    let a = server.accept(Ok(())).unwrap();
    let b = server.accept(Ok(())).unwrap();
    server.on_event(a, ConnEvent::RequestRead);
    assert_eq!(server.on_event(b, ConnEvent::RequestRead), outcome(Directive::Park, None));
    assert_eq!(server.on_event(a, ConnEvent::TransportError), outcome(Directive::Close, Some(b)));
    assert_eq!(server.phase(b), Some(Phase::Handling));
    assert_eq!(server.in_flight(), 1);
    assert_eq!(server.parked(), 0);
}

#[test]
fn dropped_parked_connection_leaves_the_queue() {
    let mut server = listening(1);
    let a = server.accept(Ok(())).unwrap();
    let b = server.accept(Ok(())).unwrap();
    let c = server.accept(Ok(())).unwrap();
    server.on_event(a, ConnEvent::RequestRead);
    server.on_event(b, ConnEvent::RequestRead);
    server.on_event(c, ConnEvent::RequestRead);
    assert_eq!(server.on_event(b, ConnEvent::PeerClosed), outcome(Directive::Close, None));
    assert_eq!(server.parked(), 1);
    assert_eq!(server.phase(a), Some(Phase::Handling));
    assert_eq!(server.on_event(a, ConnEvent::HandlerDone), outcome(Directive::Respond, Some(c)));
}

#[test]
fn transport_error_touches_no_other_connection() {
    let mut server = listening(2);
    let a = server.accept(Ok(())).unwrap();
    let b = server.accept(Ok(())).unwrap();
    let c = server.accept(Ok(())).unwrap();
    server.on_event(a, ConnEvent::RequestRead);
    server.on_event(b, ConnEvent::RequestRead);
    assert_eq!(server.on_event(c, ConnEvent::TransportError), outcome(Directive::Close, None));
    assert_eq!(server.phase(a), Some(Phase::Handling));
    assert_eq!(server.phase(b), Some(Phase::Handling));
    assert_eq!(server.listener(), Listener::Listening);
    assert_eq!(server.connections(), 2);
    let d = server.accept(Ok(())).unwrap();
    assert_eq!(d, c);
    assert_eq!(server.phase(a), Some(Phase::Handling));
    assert_eq!(server.phase(b), Some(Phase::Handling));
}

#[test]
fn requests_on_one_connection_are_taken_one_at_a_time() {
    let mut server = listening(2);
    let a = server.accept(Ok(())).unwrap();
    assert_eq!(server.on_event(a, ConnEvent::RequestRead), outcome(Directive::Forward, None));
    assert_eq!(server.on_event(a, ConnEvent::RequestRead), outcome(Directive::Ignore, None));
    assert_eq!(server.in_flight(), 1);
    let mut full = listening(1);
    let x = full.accept(Ok(())).unwrap();
    let y = full.accept(Ok(())).unwrap();
    full.on_event(x, ConnEvent::RequestRead);
    assert_eq!(full.on_event(y, ConnEvent::RequestRead), outcome(Directive::Park, None));
    assert_eq!(full.on_event(y, ConnEvent::RequestRead), outcome(Directive::Ignore, None));
    assert_eq!(full.parked(), 1);
}

#[test]
fn writes_beyond_the_limit_complete_in_order_per_connection() {
    let mut server = listening(2);
    let conn = server.accept(Ok(())).unwrap();
    let mut order: Vec<u32> = Vec::new();
    for write in 0u32..5 {
        assert_eq!(server.on_event(conn, ConnEvent::RequestRead), outcome(Directive::Forward, None));
        assert_eq!(server.in_flight(), 1);
        assert_eq!(server.on_event(conn, ConnEvent::HandlerDone), outcome(Directive::Respond, None));
        order.push(write);
    }
    assert_eq!(order, vec![0, 1, 2, 3, 4]);
    assert_eq!(server.capacity(), 2);
}

#[test]
fn a_response_nobody_asked_for_is_ignored() {
    let mut server = listening(2);
    let a = server.accept(Ok(())).unwrap();
    assert_eq!(server.on_event(a, ConnEvent::HandlerDone), outcome(Directive::Ignore, None));
    assert_eq!(server.phase(a), Some(Phase::Reading));
    let mut full = listening(1);
    let x = full.accept(Ok(())).unwrap();
    let y = full.accept(Ok(())).unwrap();
    full.on_event(x, ConnEvent::RequestRead);
    full.on_event(y, ConnEvent::RequestRead);
    assert_eq!(full.on_event(y, ConnEvent::HandlerDone), outcome(Directive::Ignore, None));
    assert_eq!(full.phase(y), Some(Phase::Waiting));
}

#[test]
fn events_for_unknown_connections_are_ignored() {
    let mut server = listening(2);
    let a = server.accept(Ok(())).unwrap();
    assert_eq!(server.on_event(a + 1, ConnEvent::RequestRead), outcome(Directive::Ignore, None));
    assert_eq!(server.on_event(77, ConnEvent::PeerClosed), outcome(Directive::Ignore, None));
    assert_eq!(server.connections(), 1);
    assert_eq!(server.in_flight(), 0);
}

#[test]
fn a_new_connection_takes_the_first_free_slot() {
    let mut server = listening(2);
    assert_eq!(server.accept(Ok(())), Ok(0));
    assert_eq!(server.accept(Ok(())), Ok(1));
    assert_eq!(server.accept(Ok(())), Ok(2));
    assert_eq!(server.accept(Ok(())), Ok(3));
    server.on_event(1, ConnEvent::PeerClosed);
    server.on_event(2, ConnEvent::TransportError);
    assert_eq!(server.phase(1), None);
    assert_eq!(server.connections(), 2);
    assert_eq!(server.accept(Ok(())), Ok(1));
    assert_eq!(server.accept(Ok(())), Ok(2));
    assert_eq!(server.accept(Ok(())), Ok(4));
    assert_eq!(server.connections(), 5);
    assert_eq!(server.phase(1), Some(Phase::Reading));
}

#[test]
fn a_slot_taken_again_starts_between_requests() {
    let mut server = listening(1);
    let a = server.accept(Ok(())).unwrap();
    let b = server.accept(Ok(())).unwrap();
    server.on_event(a, ConnEvent::RequestRead);
    server.on_event(b, ConnEvent::RequestRead);
    assert_eq!(server.on_event(b, ConnEvent::PeerClosed), outcome(Directive::Close, None));
    let c = server.accept(Ok(())).unwrap();
    assert_eq!(c, b);
    assert_eq!(server.phase(c), Some(Phase::Reading));
    assert_eq!(server.parked(), 0);
    assert_eq!(server.in_flight(), 1);
}

#[test]
fn a_server_without_tickets_parks_every_request() {
    let mut server = listening(0);
    let a = server.accept(Ok(())).unwrap();
    assert_eq!(server.on_event(a, ConnEvent::RequestRead), outcome(Directive::Park, None));
    assert_eq!(server.in_flight(), 0);
    assert_eq!(server.on_event(a, ConnEvent::PeerClosed), outcome(Directive::Close, None));
    assert_eq!(server.parked(), 0);
}

#[test]
fn link_loss_does_not_stop_the_listener() {
    let mut sup = WifiLoop::new("home", "secret", 5, 1).unwrap();
    sup.configure(Ok(())).unwrap();
    sup.bring_up(Ok(())).unwrap();
    let connected =
        sup.initial_connect(&[LinkEvent::LinkUp, LinkEvent::Associated, LinkEvent::IpReady]);
    assert_eq!(connected, Ok(Progress::Connected));
    let mut server = listening(2);
    let mut lp = sup.stay_connected().unwrap();
    assert_eq!(server.accept(Ok(())), Ok(0));
    assert_eq!(lp.on_event(LinkEvent::LinkDown), Action::AwaitLink);
    assert_eq!(lp.state(), ConnectivityState::Disconnected);
    assert_eq!(server.listener(), Listener::Listening);
    assert_eq!(server.accept(Ok(())), Ok(1));
    assert_eq!(lp.on_event(LinkEvent::LinkUp), Action::Associate);
    assert_eq!(lp.state(), ConnectivityState::Connecting);
    assert_eq!(server.accept(Ok(())), Ok(2));
    assert_eq!(lp.on_event(LinkEvent::Associated), Action::AwaitIp);
    assert_eq!(lp.state(), ConnectivityState::Associated);
    assert_eq!(lp.on_event(LinkEvent::IpReady), Action::Monitor);
    assert_eq!(server.listener(), Listener::Listening);
    assert_eq!(server.accept(Ok(())), Ok(3));
    assert_eq!(server.connections(), 4);
}
