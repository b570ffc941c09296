use stageview::api::{action_response, fixed_response, remote_command};
use stageview::api::{
    control_page_head, error_body, fmp4_stream_head, fullscreen_body, grid_body, json_response,
    mjpeg_part, not_found_body, preflight_response, reload_body, route, solo_body,
    solo_error_body, status_body, Route,
};
use stageview::config::Camera;

fn r(req: &str) -> String {
    match route(req) {
        Route::Preflight => "preflight".into(),
        Route::Stream(id) => format!("stream:{}", id),
        Route::ControlPage => "page".into(),
        Route::Grid => "grid".into(),
        Route::Solo(i) => format!("solo:{}", i),
        Route::SoloIndexTooSmall => "solo:too-small".into(),
        Route::SoloInvalidIndex => "solo:invalid".into(),
        Route::Status => "status".into(),
        Route::Fullscreen => "fullscreen".into(),
        Route::Reload => "reload".into(),
        Route::NotFound => "404".into(),
    }
}

#[test]
fn routes() {
    assert_eq!(r("OPTIONS /api/grid HTTP/1.1\r\n\r\n"), "preflight");
    assert_eq!(r("GET /camera/cam1/stream HTTP/1.1\r\nHost: x\r\n\r\n"), "stream:cam1");
    assert_eq!(r("GET /camera//stream HTTP/1.1\r\n"), "stream:");
    assert_eq!(r("GET / HTTP/1.1\r\n"), "page");
    assert_eq!(r("GET /control HTTP/1.1\r\n"), "page");
    assert_eq!(r("POST /control HTTP/1.1\r\n"), "404");
    assert_eq!(r("POST /api/grid HTTP/1.1\r\n"), "grid");
    assert_eq!(r("GET /api/solo/3 HTTP/1.1\r\n"), "solo:3");
    assert_eq!(r("GET /api/solo/+12 HTTP/1.1\r\n"), "solo:12");
    assert_eq!(r("GET /api/solo//api/solo/4 HTTP/1.1\r\n"), "solo:invalid");
    assert_eq!(r("GET /api/solo/0 HTTP/1.1\r\n"), "solo:too-small");
    assert_eq!(r("GET /api/solo/x HTTP/1.1\r\n"), "solo:invalid");
    assert_eq!(r("GET /api/solo/ HTTP/1.1\r\n"), "solo:invalid");
    assert_eq!(r("GET /api/solo/99999999999999999999999 HTTP/1.1\r\n"), "solo:invalid");
    assert_eq!(r("GET /api/status HTTP/1.1\r\n"), "status");
    assert_eq!(r("GET /api/fullscreen HTTP/1.1\r\n"), "fullscreen");
    assert_eq!(r("GET /api/reload HTTP/1.1\r\n"), "reload");
    assert_eq!(r("GET /nope HTTP/1.1\r\n"), "404");
}

#[test]
fn request_line_edge_cases() {
    assert_eq!(r(""), "404");
    assert_eq!(r("GET"), "page");
    assert_eq!(r("  GET\t/api/grid  "), "grid");
    assert_eq!(r("GET /api/status"), "status");
    assert_eq!(r("\r\nGET /api/status HTTP/1.1"), "404");
}

#[test]
fn json_response_framing() {
    assert_eq!(
        json_response("200 OK", "{\"ok\":true}"),
        "HTTP/1.1 200 OK\r\nContent-Type: application/json\r\nAccess-Control-Allow-Origin: *\r\nContent-Length: 11\r\nConnection: close\r\n\r\n{\"ok\":true}"
    );
    // the length counts bytes, not characters
    assert!(json_response("200 OK", "é").contains("Content-Length: 2\r\n"));
}

#[test]
fn bodies() {
    assert_eq!(grid_body(), r#"{"ok":true,"action":"grid"}"#);
    assert_eq!(solo_body(2), r#"{"ok":true,"action":"solo","index":2}"#);
    assert_eq!(solo_error_body(true), r#"{"ok":false,"error":"index must be >= 1"}"#);
    assert_eq!(solo_error_body(false), r#"{"ok":false,"error":"invalid index"}"#);
    assert_eq!(fullscreen_body(true), r#"{"action":"fullscreen","ok":true,"state":"entered"}"#);
    assert_eq!(fullscreen_body(false), r#"{"action":"fullscreen","ok":true,"state":"exited"}"#);
    assert_eq!(reload_body(), r#"{"action":"reload","ok":true}"#);
    assert!(not_found_body().starts_with(r#"{"ok":false,"error":"unknown endpoint","endpoints":["/","#));
}

#[test]
fn error_body_escapes_message() {
    assert_eq!(error_body("Main window not found"), r#"{"error":"Main window not found","ok":false}"#);
    assert_eq!(error_body("a\"b"), r#"{"error":"a\"b","ok":false}"#);
}

#[test]
fn status_lists_cameras() {
    let cams = vec![
        Camera { id: "cam1".into(), name: "Front".into(), url: "rtp://a".into() },
        Camera { id: "c\"2".into(), name: "Back\n".into(), url: "rtsp://b".into() },
    ];
    assert_eq!(
        status_body(&cams),
        r#"{"cameras":[{"id":"cam1","index":1,"name":"Front"},{"id":"c\"2","index":2,"name":"Back\n"}],"ok":true}"#
    );
    assert_eq!(status_body(&vec![]), r#"{"cameras":[],"ok":true}"#);
}

#[test]
fn fixed_heads() {
    assert!(preflight_response().starts_with("HTTP/1.1 204 No Content\r\n"));
    assert!(fmp4_stream_head().contains("Content-Type: video/mp4\r\n"));
    assert!(control_page_head(1234).contains("Content-Length: 1234\r\n"));
}

#[test]
fn mjpeg_part_framing() {
    let p = mjpeg_part(&[0xff, 0xd8, 1, 0xff, 0xd9]);
    let mut want = b"--frame\r\nContent-Type: image/jpeg\r\nContent-Length: 5\r\n\r\n".to_vec();
    want.extend_from_slice(&[0xff, 0xd8, 1, 0xff, 0xd9]);
    want.extend_from_slice(b"\r\n");
    assert_eq!(p, want);
}

#[test]
fn fixed_responses_by_route() {
    let (st, body) = fixed_response(&Route::Grid).unwrap();
    assert_eq!((st.as_str(), body.as_str()), ("200 OK", r#"{"ok":true,"action":"grid"}"#));
    let (st, body) = fixed_response(&Route::Solo(4)).unwrap();
    assert_eq!((st.as_str(), body.as_str()), ("200 OK", r#"{"ok":true,"action":"solo","index":4}"#));
    assert_eq!(fixed_response(&Route::SoloIndexTooSmall).unwrap().0, "400 Bad Request");
    assert_eq!(fixed_response(&Route::SoloInvalidIndex).unwrap().0, "400 Bad Request");
    assert_eq!(fixed_response(&Route::NotFound).unwrap().0, "404 Not Found");
    assert!(fixed_response(&Route::Status).is_none());
    assert!(fixed_response(&Route::Reload).is_none());
    assert!(fixed_response(&Route::Stream("a".to_string())).is_none());
}

#[test]
fn action_responses() {
    let (st, body) = action_response(Ok("{\"x\":1}".to_string()));
    assert_eq!((st.as_str(), body.as_str()), ("200 OK", "{\"x\":1}"));
    let (st, body) = action_response(Err("Main window not found".to_string()));
    assert_eq!(st, "500 Internal Server Error");
    assert_eq!(body, r#"{"error":"Main window not found","ok":false}"#);
}

#[test]
fn remote_commands() {
    assert_eq!(remote_command(&Route::Grid), Some(("grid".to_string(), None)));
    assert_eq!(remote_command(&Route::Solo(2)), Some(("solo".to_string(), Some(2))));
    assert_eq!(remote_command(&Route::Status), None);
    assert_eq!(remote_command(&Route::SoloIndexTooSmall), None);
}

#[test]
fn plain_text_is_quoted_as_is() {
    let cams = vec![Camera { id: "é1".into(), name: "Hall ✓".into(), url: "x".into() }];
    assert_eq!(status_body(&cams), r#"{"cameras":[{"id":"é1","index":1,"name":"Hall ✓"}],"ok":true}"#);
    assert_eq!(error_body("tab\there"), r#"{"error":"tab\there","ok":false}"#);
}

#[test]
fn control_characters_escaped() {
    assert_eq!(error_body("a\u{1}b\u{1f}"), r#"{"error":"a\u0001b\u001f","ok":false}"#);
    assert_eq!(error_body("\u{8}\u{c}\r\t\\"), r#"{"error":"\b\f\r\t\\","ok":false}"#);
}
