use dav_server::body::Body;
use dav_server::DavHandler;
use esp_webdav::dav_handler::{hyper_server, ConnEvent, Directive, RequestServer};
use hyper::body::{Body as HttpBody, Bytes};
use hyper::{Request, StatusCode};
use std::future::poll_fn;

const VOLUME: &str = "/tmp";

fn content(of: u64) -> Vec<u8> {
    let mut bytes: Vec<u8> = Vec::new();
    for i in 0u64..3000 {
        bytes.push(((i * 31 + of * 7 + (i >> 8)) % 251) as u8);
    }
    bytes
}

async fn send(handler: &DavHandler, method: &str, uri: &str, body: Vec<u8>) -> (StatusCode, Vec<u8>) {
    let request = Request::builder()
        .method(method)
        .uri(uri)
        .body(Body::from(Bytes::from(body)))
        .unwrap();
    let response = handler.handle(request).await;
    let status = response.status();
    let mut body = Box::pin(response.into_body());
    let mut read: Vec<u8> = Vec::new();
    while let Some(frame) = poll_fn(|cx| body.as_mut().poll_frame(cx)).await {
        if let Ok(data) = frame.unwrap().into_data() {
            read.extend_from_slice(&data);
        }
    }
    (status, read)
}

/// Sends one request per connection through the admission controller, at
/// most as many at once as it admits, and returns the answers in the order
/// in which the requests completed.
async fn serve_all(
    server: &mut RequestServer,
    handler: &DavHandler,
    limit: usize,
    requests: Vec<(u64, &str, String, Vec<u8>)>,
) -> Vec<(u64, StatusCode, Vec<u8>)> {
    let mut with_handler: Vec<u64> = Vec::new();
    for (conn, _, _, _) in &requests {
        let outcome = server.on_event(*conn, ConnEvent::RequestRead);
        match outcome.directive {
            Directive::Forward => with_handler.push(*conn),
            Directive::Park => {}
            other => panic!("request refused: {:?}", other),
        }
        assert!(server.in_flight() <= limit);
    }
    let mut answers: Vec<(u64, StatusCode, Vec<u8>)> = Vec::new();
    while !with_handler.is_empty() {
        assert_eq!(server.in_flight(), with_handler.len());
        assert!(server.in_flight() <= limit);
        let conn = with_handler.remove(0);
        let (_, method, uri, body) = requests.iter().find(|r| r.0 == conn).unwrap();
        let (status, read) = send(handler, method, uri, body.clone()).await;
        let outcome = server.on_event(conn, ConnEvent::HandlerDone);
        assert_eq!(outcome.directive, Directive::Respond);
        if let Some(next) = outcome.admitted {
            with_handler.push(next);
        }
        answers.push((conn, status, read));
    }
    assert_eq!(server.in_flight(), 0);
    assert_eq!(server.parked(), 0);
    answers
}

fn round_trip(dir: &str, limit: usize, clients: u64) {
    let mut server = hyper_server(VOLUME, 3000, limit);
    server.bound(Ok(())).unwrap();
    let handler = server.handler().clone();
    let runtime = tokio::runtime::Builder::new_current_thread()
        .enable_all()
        .build()
        .unwrap();
    runtime.block_on(async {
        let _ = send(&handler, "DELETE", dir, Vec::new()).await;
        let (made, _) = send(&handler, "MKCOL", dir, Vec::new()).await;
        assert_eq!(made, StatusCode::CREATED);

        let mut conns: Vec<u64> = Vec::new();
        for _ in 0..clients {
            conns.push(server.accept(Ok(())).unwrap());
        }
        let writes: Vec<(u64, &str, String, Vec<u8>)> = conns
            .iter()
            .map(|c| (*c, "PUT", format!("{}/file-{}.bin", dir, c), content(*c)))
            .collect();
        let written = serve_all(&mut server, &handler, limit, writes).await;
        let order: Vec<u64> = written.iter().map(|w| w.0).collect();
        assert_eq!(order, conns);
        for (_, status, _) in &written {
            assert_eq!(*status, StatusCode::CREATED);
        }

        let reads: Vec<(u64, &str, String, Vec<u8>)> = conns
            .iter()
            .map(|c| (*c, "GET", format!("{}/file-{}.bin", dir, c), Vec::new()))
            .collect();
        let read = serve_all(&mut server, &handler, limit, reads).await;
        assert_eq!(read.len() as u64, clients);
        for (conn, status, bytes) in read {
            assert_eq!(status, StatusCode::OK);
            assert_eq!(bytes, content(conn));
        }

        let (gone, _) = send(&handler, "DELETE", dir, Vec::new()).await;
        assert_eq!(gone, StatusCode::NO_CONTENT);
    });
}

#[test]
fn written_bytes_read_back_exactly() {
    round_trip("/esp-webdav-round-trip-one", 2, 1);
}

#[test]
fn more_writes_than_tickets_read_back_exactly() {
    round_trip("/esp-webdav-round-trip-many", 2, 5);
}

#[test]
fn writes_on_one_connection_land_in_submission_order() {
    let dir = "/esp-webdav-round-trip-ordered";
    let mut server = hyper_server(VOLUME, 3000, 2);
    server.bound(Ok(())).unwrap();
    let handler = server.handler().clone();
    let conn = server.accept(Ok(())).unwrap();
    let runtime = tokio::runtime::Builder::new_current_thread()
        .enable_all()
        .build()
        .unwrap();
    runtime.block_on(async {
        let _ = send(&handler, "DELETE", dir, Vec::new()).await;
        let (made, _) = send(&handler, "MKCOL", dir, Vec::new()).await;
        assert_eq!(made, StatusCode::CREATED);
        let file = format!("{}/log.bin", dir);
        // Five writes to one file, more than there are tickets: the last
        // submitted is the one that stays.
        for version in 0u64..5 {
            let write = vec![(conn, "PUT", file.clone(), content(version))];
            let answers = serve_all(&mut server, &handler, 2, write).await;
            assert!(answers[0].1 == StatusCode::CREATED || answers[0].1 == StatusCode::NO_CONTENT);
            let read = vec![(conn, "GET", file.clone(), Vec::new())];
            let answers = serve_all(&mut server, &handler, 2, read).await;
            assert_eq!(answers[0].1, StatusCode::OK);
            assert_eq!(answers[0].2, content(version));
        }
        let (gone, _) = send(&handler, "DELETE", dir, Vec::new()).await;
        assert_eq!(gone, StatusCode::NO_CONTENT);
    });
}
