use livephoto::http::{
    can_serve, parse_header_line, parse_range, parse_request_line, resolve_target, serve_http,
    write_partial_head, write_whole_head, Header, ServeAction, ServeEvent, ServeState,
};
use livephoto::stream::{stream_bytes, StreamStep, BUFFER};

const TAIL: &str =
    "Accept-Ranges: bytes\r\nAccess-Control-Allow-Origin: *\r\nConnection: close\r\n\r\n";

fn serve(lines: &[&str], opened: Option<u64>) -> (Option<String>, ServeAction) {
    let mut state = ServeState::RequestLine;
    let mut opening = None;
    let mut at = 0;
    loop {
        let event = if matches!(state, ServeState::Opening { .. }) {
            match opened {
                Some(size) => ServeEvent::Opened(size),
                None => ServeEvent::OpenFailed,
            }
        } else {
            at += 1;
            ServeEvent::Line(if at <= lines.len() { lines[at - 1] } else { "" })
        };
        assert!(can_serve(&state, &event));
        let (next, action) = serve_http(state, event, false);
        match action {
            ServeAction::ReadLine => {}
            ServeAction::Open(path) => opening = Some(path),
            answer => {
                assert_eq!(next, ServeState::Done);
                return (opening, answer);
            }
        }
        state = next;
    }
}

#[test]
fn the_target_is_the_second_word() {
    assert_eq!(parse_request_line("GET /a%20b HTTP/1.1\r\n"), Some("/a%20b".to_string()));
    assert_eq!(parse_request_line("  GET \t /x  "), Some("/x".to_string()));
    assert_eq!(parse_request_line("GET\u{3000}/y"), Some("/y".to_string()));
    assert_eq!(parse_request_line("GET\r\n"), None);
    assert_eq!(parse_request_line("GET "), None);
    assert_eq!(parse_request_line(""), None);
}

#[test]
fn header_lines_are_told_apart() {
    assert_eq!(parse_header_line("\r\n"), Header::End);
    assert_eq!(parse_header_line(""), Header::End);
    assert_eq!(parse_header_line("Host: localhost\r\n"), Header::Other);
    assert_eq!(parse_header_line("Range: bytes=0-1\r\n"), Header::Range("bytes=0-1".to_string()));
    assert_eq!(parse_header_line("rAnGe:bytes=5-"), Header::Range("bytes=5-".to_string()));
    assert_eq!(parse_header_line("range:"), Header::Range(String::new()));
    assert_eq!(parse_header_line("range: a:b"), Header::Range("a:b".to_string()));
    assert_eq!(parse_header_line("x-range: a"), Header::Other);
    assert_eq!(parse_header_line("range : a"), Header::Other);
}

#[test]
fn targets_name_paths() {
    assert_eq!(resolve_target("/a%20b.jpg", false), "/a b.jpg");
    assert_eq!(resolve_target("/C:/a", false), "/C:/a");
    assert_eq!(resolve_target("/C:/a", true), "C:/a");
    assert_eq!(resolve_target("/C%3A/a", true), "C:/a");
    assert_eq!(resolve_target("/C:", true), "/C:");
    assert_eq!(resolve_target("C:/a", true), "C:/a");
    assert_eq!(resolve_target("/ab:c", true), "/ab:c");
}

#[test]
fn ranges_have_bounds() {
    assert_eq!(parse_range("bytes=0-99", 1000), Some((0, 99)));
    assert_eq!(parse_range("bytes=500-", 1000), Some((500, 999)));
    assert_eq!(parse_range("bytes=500", 1000), Some((500, 999)));
    assert_eq!(parse_range("bytes= 1 - 2 ", 1000), Some((1, 2)));
    assert_eq!(parse_range("bytes=-", 1000), Some((0, 999)));
    assert_eq!(parse_range("bytes=a-b", 1000), Some((0, 999)));
    assert_eq!(parse_range("bytes=0-5,7-9", 1000), Some((0, 999)));
    assert_eq!(parse_range("bytes=-500", 1000), Some((0, 500)));
    assert_eq!(parse_range("bytes=0-", 0), Some((0, 0)));
    assert_eq!(parse_range("items=0-5", 1000), None);
    assert_eq!(parse_range("", 1000), None);
}

#[test]
fn a_range_ends_in_the_file() {
    assert_eq!(parse_range("bytes=0-99999", 1000), Some((0, 999)));
    assert_eq!(parse_range("bytes=10-18446744073709551615", 1000), Some((10, 999)));
}

#[test]
fn a_written_range_is_read_back() {
    for (start, end) in [(0, 0), (1, 2), (12, 4095), (0, 999_999)] {
        assert_eq!(parse_range(&format!("bytes={start}-{end}"), 1_000_000), Some((start, end)));
    }
}

#[test]
fn heads_are_written() {
    assert_eq!(
        write_whole_head("image/png", 12),
        format!("HTTP/1.1 200 OK\r\nContent-Type: image/png\r\nContent-Length: 12\r\n{TAIL}")
    );
    assert_eq!(
        write_partial_head("video/mp4", 5, 9, 100),
        format!(
            "HTTP/1.1 206 Partial Content\r\nContent-Type: video/mp4\r\n\
            Content-Range: bytes 5-9/100\r\nContent-Length: 5\r\n{TAIL}"
        )
    );
}

#[test]
fn a_request_without_a_target_is_bad() {
    let bad = ServeAction::Send("HTTP/1.1 400 Bad Request\r\nContent-Length: 0\r\n\r\n".to_string());
    assert_eq!(serve(&["GET\r\n"], Some(5)), (None, bad));
}

#[test]
fn a_path_that_leads_upwards_is_refused() {
    for target in ["/a/../b", "/a/%2e%2e/b", "/a%2E.", "/x..y"] {
        let line = format!("GET {target} HTTP/1.1\r\n");
        let refused =
            ServeAction::Send("HTTP/1.1 403 Forbidden\r\nContent-Length: 0\r\n\r\n".to_string());
        assert_eq!(serve(&[&line], Some(5)), (None, refused));
    }
}

#[test]
fn a_file_that_cannot_be_opened_is_not_found() {
    let missing =
        ServeAction::Send("HTTP/1.1 404 Not Found\r\nContent-Length: 0\r\n\r\n".to_string());
    assert_eq!(serve(&["GET /no HTTP/1.1\r\n"], None), (Some("/no".to_string()), missing));
}

#[test]
fn a_whole_file_is_sent() {
    let (path, answer) = serve(&["GET /a%20b.mov HTTP/1.1\r\n", "Host: x\r\n", "\r\n"], Some(77));
    assert_eq!(path, Some("/a b.mov".to_string()));
    assert_eq!(
        answer,
        ServeAction::SendFile {
            seek: None,
            head: write_whole_head("video/quicktime", 77),
            length: 77,
        }
    );
}

#[test]
fn the_last_range_counts() {
    let lines = ["GET /a.mp4 HTTP/1.1", "Range: bytes=0-1", "Accept: *", "range: bytes=10-19", ""];
    let (path, answer) = serve(&lines, Some(100));
    assert_eq!(path, Some("/a.mp4".to_string()));
    assert_eq!(
        answer,
        ServeAction::SendFile {
            seek: Some(10),
            head: write_partial_head("video/mp4", 10, 19, 100),
            length: 10,
        }
    );
}

#[test]
fn a_range_that_asks_for_no_bytes_gives_the_whole_file() {
    let (_, answer) = serve(&["GET /a.png x", "Range: lines=1-2"], Some(3));
    assert_eq!(
        answer,
        ServeAction::SendFile { seek: None, head: write_whole_head("image/png", 3), length: 3 }
    );
}

#[test]
fn steps_that_have_no_answer_are_told() {
    let opening = |range: &str| ServeState::Opening {
        path: "/a".to_string(),
        range: Some(range.to_string()),
    };
    assert!(can_serve(&opening("bytes=99-"), &ServeEvent::Opened(100)));
    assert!(!can_serve(&opening("bytes=100-"), &ServeEvent::Opened(100)));
    assert!(!can_serve(&opening("bytes=5-4"), &ServeEvent::Opened(100)));
    assert!(can_serve(&opening("bytes=5-4"), &ServeEvent::OpenFailed));
    let headers = ServeState::Headers { target: "/%a\u{e9}".to_string(), range: None };
    assert!(!can_serve(&headers, &ServeEvent::Line("")));
    assert!(can_serve(&headers, &ServeEvent::Line("Host: x")));
    assert!(!can_serve(&headers, &ServeEvent::OpenFailed));
    assert!(!can_serve(&ServeState::RequestLine, &ServeEvent::Opened(1)));
    assert!(!can_serve(&ServeState::Done, &ServeEvent::Line("")));
}

#[test]
fn bytes_are_copied_piece_by_piece() {
    assert_eq!(stream_bytes(0, None), StreamStep { write: 0, remaining: 0, read: 0 });
    assert_eq!(stream_bytes(10, None), StreamStep { write: 0, remaining: 10, read: 10 });
    assert_eq!(
        stream_bytes(100_000, None),
        StreamStep { write: 0, remaining: 100_000, read: BUFFER }
    );
    assert_eq!(
        stream_bytes(100_000, Some(65536)),
        StreamStep { write: 65536, remaining: 34464, read: 34464 }
    );
    assert_eq!(stream_bytes(10, Some(0)), StreamStep { write: 0, remaining: 10, read: 0 });
    assert_eq!(stream_bytes(10, Some(10)), StreamStep { write: 10, remaining: 0, read: 0 });
    assert_eq!(BUFFER, 65536);
}

#[test]
fn copying_stops_when_all_is_copied_or_the_source_ends() {
    for (wanted, held) in [(0u64, 5usize), (5, 5), (200_000, 300_000), (200_000, 70_001), (7, 0)] {
        let mut left = held;
        let mut copied: usize = 0;
        let mut step = stream_bytes(wanted, None);
        while step.read > 0 {
            assert!(step.read <= BUFFER);
            let got = step.read.min(left).min(50_000);
            left -= got;
            step = stream_bytes(step.remaining, Some(got));
            copied += step.write;
        }
        assert_eq!(copied as u64, wanted.min(held as u64));
        assert_eq!(step.remaining, wanted - copied as u64);
    }
}

#[test]
fn the_head_announces_what_is_sent() {
    for range in ["Range: bytes=10-19", "Range: bytes=5-", "Range: bytes=0-999", "Host: x"] {
        let (_, answer) = serve(&["GET /a.mp4 HTTP/1.1", range], Some(100));
        match answer {
            ServeAction::SendFile { head, length, .. } => {
                assert!(head.contains(&format!("\r\nContent-Length: {length}\r\n")));
            }
            other => panic!("{other:?}"),
        }
    }
}
