use seele::exchange::http::{
    check_body_size, contains_bytes, error_response_body, frame_signal, handle_submission_request,
    shows_progress, ExchangeError, SHUTDOWN_DELAY_SECOND, STATUS_INTERNAL_SERVER_ERROR,
};

#[test]
fn body_of_one_byte_too_many_is_refused() {
    let max = 4096;
    let error = handle_submission_request(Some(max + 1), None, max).unwrap_err();
    assert_eq!(error, ExchangeError::BodyTooLarge { size: 4097 });
    let body = error_response_body(&error.message());
    assert_eq!(STATUS_INTERNAL_SERVER_ERROR, 500);
    assert!(body.contains("exceeds the limit"));
    assert_eq!(body, "Internal error: The size of the request body exceeds the limit: 4097");
}

#[test]
fn body_size_limits() {
    assert_eq!(check_body_size(Some(0), 0), Ok(()));
    assert_eq!(check_body_size(Some(10), 10), Ok(()));
    assert_eq!(check_body_size(Some(11), 10), Err(ExchangeError::BodyTooLarge { size: 11 }));
    assert_eq!(check_body_size(None, 10), Err(ExchangeError::BodyTooLarge { size: 11 }));
    assert_eq!(check_body_size(None, 0), Err(ExchangeError::BodyTooLarge { size: 1 }));
    assert_eq!(check_body_size(None, u64::MAX), Ok(()));
    assert_eq!(check_body_size(Some(u64::MAX), u64::MAX), Ok(()));
    assert_eq!(
        check_body_size(Some(u64::MAX), u64::MAX - 1),
        Err(ExchangeError::BodyTooLarge { size: u64::MAX })
    );
}

#[test]
fn progress_is_asked_for_in_the_query() {
    assert_eq!(handle_submission_request(Some(1), Some("progress"), 10), Ok(true));
    assert_eq!(handle_submission_request(Some(1), Some("a=1&progress=true"), 10), Ok(true));
    assert_eq!(handle_submission_request(Some(1), Some("noprogressbar"), 10), Ok(true));
    assert_eq!(handle_submission_request(Some(1), Some("progres"), 10), Ok(false));
    assert_eq!(handle_submission_request(Some(1), Some("Progress"), 10), Ok(false));
    assert_eq!(handle_submission_request(Some(1), Some(""), 10), Ok(false));
    assert_eq!(handle_submission_request(Some(1), None, 10), Ok(false));
    assert!(shows_progress(Some("x&progress")));
    assert!(!shows_progress(Some("pro gress")));
    assert!(!shows_progress(None));
}

#[test]
fn bytes_are_searched_for() {
    assert!(contains_bytes(b"hello", b""));
    assert!(contains_bytes(b"", b""));
    assert!(!contains_bytes(b"", b"a"));
    assert!(contains_bytes(b"hello", b"hello"));
    assert!(contains_bytes(b"hello", b"llo"));
    assert!(contains_bytes(b"hello", b"h"));
    assert!(!contains_bytes(b"hello", b"hellos"));
    assert!(!contains_bytes(b"hello", b"lol"));
    assert!(contains_bytes(b"aaab", b"aab"));
}

#[test]
fn signals_are_framed() {
    assert_eq!(
        frame_signal(true, true, Some("progress:\n  step: a\n  status: running")),
        "\n---\nprogress:\n  step: a\n  status: running\n...\n"
    );
    assert_eq!(frame_signal(false, true, Some("progress: x")), "");
    assert_eq!(frame_signal(false, false, Some("completed: {}")), "\n---\ncompleted: {}\n...\n");
    assert_eq!(frame_signal(true, false, Some("")), "\n---\n\n...\n");
    assert_eq!(frame_signal(true, false, None), "");
    assert_eq!(frame_signal(true, true, None), "");
    assert_eq!(SHUTDOWN_DELAY_SECOND, 5);
}
