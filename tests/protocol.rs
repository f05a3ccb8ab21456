use uploader::api::{
    import_status_error_message, none, unpack_response, CloudflareApiError, CloudflareResponse,
    ImportError, ImportStatus, InitResult, InitUploadResult,
};
use uploader::import::{
    poll_decision, ImportEvent, ImportPhase, ImportRequest, ImportSession, PollDecision,
    MAX_POLL_ATTEMPTS,
};

fn status(success: bool) -> ImportStatus {
    ImportStatus {
        success,
        error: None,
        errors: vec![],
        messages: vec![],
        status: None,
        at_bookmark: None,
    }
}

fn ok<T>(result: T) -> CloudflareResponse<T> {
    CloudflareResponse { result: Some(result), success: true, errors: vec![] }
}

#[test]
fn envelope_error_message_joins_errors() {
    let r: CloudflareResponse<ImportStatus> = CloudflareResponse {
        result: None,
        success: false,
        errors: vec![
            CloudflareApiError { code: Some(7003), message: "bad route".to_string() },
            CloudflareApiError { code: None, message: "again".to_string() },
        ],
    };
    assert_eq!(r.error_message(), "7003: bad route, again");
    assert_eq!(r.ensure_success(), Err(ImportError::Api("7003: bad route, again".to_string())));
    let empty: CloudflareResponse<ImportStatus> = CloudflareResponse { result: None, success: false, errors: vec![] };
    assert_eq!(empty.error_message(), "unknown error");
    assert_eq!(unpack_response(empty), Err(ImportError::Api("unknown error".to_string())));
}

#[test]
fn envelope_message_describes_payload() {
    let r = CloudflareResponse { result: Some(5u32), success: false, errors: vec![] };
    assert_eq!(r.error_message(), "unknown error; payload: 5");
}

#[test]
fn envelope_results() {
    assert_eq!(ok(3u8).into_result(), Ok(3));
    let missing: CloudflareResponse<u8> = CloudflareResponse { result: none(), success: true, errors: vec![] };
    assert_eq!(missing.ensure_success(), Ok(()));
    assert_eq!(missing.into_result(), Err(ImportError::MissingResult));
}

#[test]
fn status_error_message_prefers_error() {
    let mut s = status(false);
    assert_eq!(import_status_error_message(&s), "unknown error");
    s.errors = vec!["a".to_string(), "b".to_string()];
    assert_eq!(import_status_error_message(&s), "a, b");
    s.error = Some("boom".to_string());
    assert_eq!(import_status_error_message(&s), "boom");
}

#[test]
fn poll_decisions() {
    let mut s = status(true);
    s.status = Some("CoMpLeTe".to_string());
    assert!(matches!(poll_decision(&s, 0), PollDecision::Complete));
    s.status = Some("Import FAILED".to_string());
    s.error = Some("disk full".to_string());
    assert!(matches!(poll_decision(&s, 0), PollDecision::Failed(m) if m == "disk full"));
    s.status = Some("had an Error".to_string());
    s.error = None;
    assert!(matches!(poll_decision(&s, 0), PollDecision::Failed(m) if m == "unknown error"));
    let mut s = status(true);
    s.status = Some("active".to_string());
    s.at_bookmark = Some("bm-1".to_string());
    match poll_decision(&s, 4) {
        PollDecision::Continue { attempts, bookmark } => {
            assert_eq!(attempts, 5);
            assert_eq!(bookmark.as_deref(), Some("bm-1"));
        }
        other => panic!("unexpected {other:?}"),
    }
    assert!(matches!(poll_decision(&s, MAX_POLL_ATTEMPTS - 2), PollDecision::Continue { .. }));
    assert!(matches!(poll_decision(&s, MAX_POLL_ATTEMPTS - 1), PollDecision::TimedOut));
    let mut f = status(false);
    f.errors = vec!["x".to_string()];
    assert!(matches!(poll_decision(&f, 0), PollDecision::Failed(m) if m == "x"));
}

#[test]
fn idle_reply_is_success() {
    let mut s = status(false);
    s.error = Some("Not currently importing anything.".to_string());
    assert!(matches!(poll_decision(&s, 0), PollDecision::Complete));
    let (mut session, _) = ImportSession::start("c".repeat(32));
    let mut init = status(true);
    init.at_bookmark = Some("b0".to_string());
    let req = session.on_event(ImportEvent::InitReplied(ok(InitResult::Status(init))));
    assert!(matches!(req, ImportRequest::Poll { .. }));
    let req = session.on_event(ImportEvent::PollReplied(ok(s)));
    assert!(matches!(req, ImportRequest::Finish(Ok(()))));
}

#[test]
fn seen_checksum_skips_staging() {
    let (mut session, first) = ImportSession::start("abc".to_string());
    assert!(matches!(first, ImportRequest::Init { ref etag } if etag == "abc"));
    let mut st = status(true);
    st.status = Some("active".to_string());
    st.at_bookmark = Some("bookmark-9".to_string());
    let req = session.on_event(ImportEvent::InitReplied(ok(InitResult::Status(st))));
    match req {
        ImportRequest::Poll { bookmark } => assert_eq!(bookmark.as_deref(), Some("bookmark-9")),
        other => panic!("unexpected {other:?}"),
    }
    assert!(matches!(session.phase, ImportPhase::Polling { attempts: 1 }));
}

fn staged_session() -> ImportSession {
    let (mut session, _) = ImportSession::start("0123abcd".to_string());
    let req = session.on_event(ImportEvent::InitReplied(ok(InitResult::Upload(InitUploadResult {
        upload_url: "https://stage.example/put".to_string(),
        filename: "f.sql".to_string(),
    }))));
    assert!(matches!(req, ImportRequest::Upload { ref url } if url == "https://stage.example/put"));
    session
}

#[test]
fn etag_mismatch_aborts_before_ingest() {
    let mut session = staged_session();
    let req = session.on_event(ImportEvent::Uploaded { etag: Some("\"ffff\"".to_string()) });
    match req {
        ImportRequest::Finish(Err(ImportError::EtagMismatch { expected, got })) => {
            assert_eq!(expected, "0123abcd");
            assert_eq!(got, "ffff");
        }
        other => panic!("unexpected {other:?}"),
    }
    assert!(matches!(session.phase, ImportPhase::Finished));
    let after = session.on_event(ImportEvent::IngestReplied(ok(status(true))));
    assert!(matches!(after, ImportRequest::Finish(Err(ImportError::UnexpectedReply))));
}

#[test]
fn staged_upload_then_ingest_then_complete() {
    let mut session = staged_session();
    let req = session.on_event(ImportEvent::Uploaded { etag: Some("\"0123abcd\"".to_string()) });
    match req {
        ImportRequest::Ingest { etag, filename } => {
            assert_eq!(etag, "0123abcd");
            assert_eq!(filename, "f.sql");
        }
        other => panic!("unexpected {other:?}"),
    }
    let mut st = status(true);
    st.status = Some("complete".to_string());
    let req = session.on_event(ImportEvent::IngestReplied(ok(st)));
    assert!(matches!(req, ImportRequest::Finish(Ok(()))));
}

#[test]
fn missing_etag_and_transport_failures() {
    let mut session = staged_session();
    assert!(matches!(
        session.on_event(ImportEvent::Uploaded { etag: None }),
        ImportRequest::Finish(Err(ImportError::MissingEtag))
    ));
    let (mut s2, _) = ImportSession::start("x".to_string());
    assert!(matches!(
        s2.on_event(ImportEvent::TransportFailed("503".to_string())),
        ImportRequest::Finish(Err(ImportError::Transport(m))) if m == "503"
    ));
}

#[test]
fn rejected_envelope_fails_import() {
    let (mut session, _) = ImportSession::start("x".to_string());
    let r: CloudflareResponse<InitResult> = CloudflareResponse {
        result: None,
        success: false,
        errors: vec![CloudflareApiError { code: Some(1), message: "no".to_string() }],
    };
    assert!(matches!(
        session.on_event(ImportEvent::InitReplied(r)),
        ImportRequest::Finish(Err(ImportError::Api(m))) if m == "1: no"
    ));
}

#[test]
fn polling_times_out_after_the_cap() {
    let (mut session, _) = ImportSession::start("x".to_string());
    let mut st = status(true);
    st.status = Some("active".to_string());
    let mut req = session.on_event(ImportEvent::InitReplied(ok(InitResult::Status(st.clone()))));
    let mut polls = 0;
    while let ImportRequest::Poll { .. } = req {
        polls += 1;
        req = session.on_event(ImportEvent::PollReplied(ok(st.clone())));
    }
    assert_eq!(polls, MAX_POLL_ATTEMPTS - 1);
    assert!(matches!(req, ImportRequest::Finish(Err(ImportError::TimedOut { attempts: 300 }))));
}

#[test]
fn failed_status_ends_import_with_its_message() {
    let (mut session, _) = ImportSession::start("x".to_string());
    let mut st = status(true);
    st.status = Some("active".to_string());
    let req = session.on_event(ImportEvent::InitReplied(ok(InitResult::Status(st))));
    assert!(matches!(req, ImportRequest::Poll { .. }));
    let mut failed = status(true);
    failed.status = Some("Failed".to_string());
    failed.errors = vec!["syntax error".to_string(), "near X".to_string()];
    assert!(matches!(
        session.on_event(ImportEvent::PollReplied(ok(failed))),
        ImportRequest::Finish(Err(ImportError::ImportFailed(m))) if m == "syntax error, near X"
    ));
}

#[test]
fn successful_envelope_without_result_is_an_error() {
    let (mut session, _) = ImportSession::start("x".to_string());
    let r: CloudflareResponse<InitResult> = CloudflareResponse { result: None, success: true, errors: vec![] };
    assert!(matches!(
        session.on_event(ImportEvent::InitReplied(r)),
        ImportRequest::Finish(Err(ImportError::MissingResult))
    ));
}

#[test]
fn failed_envelope_with_payload_keeps_its_description() {
    let r = CloudflareResponse {
        result: Some(7u32),
        success: false,
        errors: vec![CloudflareApiError { code: None, message: "denied".to_string() }],
    };
    assert_eq!(r.ensure_success(), Err(ImportError::Api("denied; payload: 7".to_string())));
    assert_eq!(r.into_result(), Err(ImportError::Api("denied; payload: 7".to_string())));
}
