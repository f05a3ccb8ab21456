//! The remote import protocol as a state machine: init, then staging and
//! ingest when the checksum is new, then polling until the import is complete.
//! Each step takes the answer to the last request and says what to send next.

use crate::api::{
    failure_message, import_status_error_message, status_error_text, CloudflareResponse,
    ImportError, ImportStatus,
    InitResult,
};
use crate::text::{
    folded_contains, folded_equals, text_equals, text_folded_contains, text_folded_equals,
    text_trim_quotes, trim_quotes,
};
use vstd::prelude::*;

verus! {

/// The most status reports read before an import counts as timed out.
pub const MAX_POLL_ATTEMPTS: usize = 300;

/// The pause before each poll, in seconds.
pub const POLL_DELAY_SECS: u64 = 1;

/// The text of an optional string.
pub open spec fn text_opt(o: Option<String>) -> Option<Seq<char>> {
    match o {
        Some(s) => Some(s@),
        None => None,
    }
}

/// The status of an import that a previous run already finished.
pub open spec fn is_idle_reply(s: ImportStatus) -> bool {
    s.error matches Some(e) && e@ == "Not currently importing anything."@
}

/// The status text says `complete`, in any ASCII case.
pub open spec fn reports_complete(s: ImportStatus) -> bool {
    s.status matches Some(t) && folded_equals(t@, "complete"@)
}

/// The status text mentions `fail` or `error`, in any ASCII case.
pub open spec fn reports_failure(s: ImportStatus) -> bool {
    s.status matches Some(t) && (folded_contains(t@, "fail"@) || folded_contains(t@, "error"@))
}

/// What to do after a status report.
#[derive(Debug)]
pub enum PollDecision {
    /// The import is complete.
    Complete,
    /// The import failed, with this message.
    Failed(String),
    /// The allowed number of polls is used up.
    TimedOut,
    /// Poll again after the delay, sending the bookmark; `attempts` reports
    /// have been read.
    Continue { attempts: usize, bookmark: Option<String> },
}

/// `d` is the decision for status `s` when `attempts` reports were read before it.
pub open spec fn poll_decision_spec(s: ImportStatus, attempts: int, d: PollDecision) -> bool {
    if is_idle_reply(s) || reports_complete(s) {
        d is Complete
    } else if reports_failure(s) || !s.success {
        &&& d matches PollDecision::Failed(m)
        &&& m@ == status_error_text(s)
    } else if attempts + 1 >= MAX_POLL_ATTEMPTS {
        d is TimedOut
    } else {
        d matches PollDecision::Continue { attempts: a, bookmark: b } && a == attempts + 1
            && text_opt(b) == text_opt(s.at_bookmark)
    }
}

fn clone_text_opt(o: &Option<String>) -> (r: Option<String>)
    ensures
        text_opt(r) == text_opt(*o),
{
    match o {
        Some(s) => Some(s.clone()),
        None => None,
    }
}

/// Decides, from one status report and the number of reports read before it,
/// whether the import is over and how.
pub fn poll_decision(status: &ImportStatus, attempts: usize) -> (d: PollDecision)
    ensures
        poll_decision_spec(*status, attempts as int, d),
{
    if let Some(err) = &status.error {
        if text_equals(err.as_str(), "Not currently importing anything.") {
            return PollDecision::Complete;
        }
    }
    if let Some(text) = &status.status {
        if text_folded_equals(text.as_str(), "complete") {
            return PollDecision::Complete;
        }
        if text_folded_contains(text.as_str(), "fail") || text_folded_contains(text.as_str(), "error") {
            return PollDecision::Failed(import_status_error_message(status));
        }
    }
    if !status.success {
        return PollDecision::Failed(import_status_error_message(status));
    }
    if attempts >= MAX_POLL_ATTEMPTS - 1 {
        return PollDecision::TimedOut;
    }
    PollDecision::Continue { attempts: attempts + 1, bookmark: clone_text_opt(&status.at_bookmark) }
}

/// Where an import stands.
#[derive(Debug)]
pub enum ImportPhase {
    /// The init request is out.
    AwaitInit,
    /// The script is being staged under this file name.
    AwaitUpload { filename: String },
    /// The ingest request is out.
    AwaitIngest,
    /// A poll is out; `attempts` reports have been read.
    Polling { attempts: usize },
    /// The import is over.
    Finished,
}

/// What to send next.
#[derive(Debug)]
pub enum ImportRequest {
    /// Announce the script by its checksum.
    Init { etag: String },
    /// Stage the script's bytes at this URL.
    Upload { url: String },
    /// Ingest the staged file.
    Ingest { etag: String, filename: String },
    /// Wait `POLL_DELAY_SECS`, then ask for progress from this bookmark.
    Poll { bookmark: Option<String> },
    /// Nothing more: the import's outcome.
    Finish(Result<(), ImportError>),
}

/// The answer to the last request.
#[derive(Debug)]
pub enum ImportEvent {
    InitReplied(CloudflareResponse<InitResult>),
    /// The staging upload succeeded; its `ETag` header, if it had one.
    Uploaded { etag: Option<String> },
    IngestReplied(CloudflareResponse<ImportStatus>),
    PollReplied(CloudflareResponse<ImportStatus>),
    /// The request failed on the way, or its HTTP status was an error.
    TransportFailed(String),
}

/// One import of one script into one database.
#[derive(Debug)]
pub struct ImportSession {
    pub checksum: String,
    pub phase: ImportPhase,
}

/// After status `s`, with `attempts` reports read before it, the session is in
/// `phase` and asks for `req`.
pub open spec fn after_status(s: ImportStatus, attempts: int, phase: ImportPhase, req: ImportRequest) -> bool {
    if is_idle_reply(s) || reports_complete(s) {
        phase is Finished && req matches ImportRequest::Finish(Ok(_))
    } else if reports_failure(s) || !s.success {
        &&& phase is Finished
        &&& req matches ImportRequest::Finish(Err(ImportError::ImportFailed(m)))
        &&& m@ == status_error_text(s)
    } else if attempts + 1 >= MAX_POLL_ATTEMPTS {
        &&& phase is Finished
        &&& req matches ImportRequest::Finish(Err(ImportError::TimedOut { attempts: a }))
        &&& a == MAX_POLL_ATTEMPTS
    } else {
        &&& phase == ImportPhase::Polling { attempts: (attempts + 1) as usize }
        &&& req matches ImportRequest::Poll { bookmark: b }
        &&& text_opt(b) == text_opt(s.at_bookmark)
    }
}

/// A failed envelope ends the import with an API error; a successful one
/// without result ends it with `MissingResult`.
pub open spec fn envelope_failure<T>(r: CloudflareResponse<T>, phase: ImportPhase, req: ImportRequest) -> bool {
    &&& phase is Finished
    &&& (!r.success ==> (req matches ImportRequest::Finish(Err(ImportError::Api(m))) && failure_message(r, m@)))
    &&& (r.success ==> (req matches ImportRequest::Finish(Err(ImportError::MissingResult))))
}

/// One step of the protocol: in phase `old`, for script checksum `checksum`,
/// the answer `ev` leads to phase `new` and request `req`.
pub open spec fn import_step(
    checksum: Seq<char>,
    old: ImportPhase,
    ev: ImportEvent,
    new: ImportPhase,
    req: ImportRequest,
) -> bool {
    match (old, ev) {
        (ImportPhase::Finished, _) => new is Finished && req matches ImportRequest::Finish(
            Err(ImportError::UnexpectedReply),
        ),
        (_, ImportEvent::TransportFailed(m)) => new is Finished && req == ImportRequest::Finish(
            Err(ImportError::Transport(m)),
        ),
        (ImportPhase::AwaitInit, ImportEvent::InitReplied(r)) => if r.success && r.result is Some {
            match r.result->Some_0 {
                InitResult::Upload(u) => {
                    &&& new matches ImportPhase::AwaitUpload { filename: f }
                    &&& f@ == u.filename@
                    &&& req matches ImportRequest::Upload { url }
                    &&& url@ == u.upload_url@
                },
                InitResult::Status(s) => after_status(s, 0, new, req),
            }
        } else {
            envelope_failure(r, new, req)
        },
        (ImportPhase::AwaitUpload { filename }, ImportEvent::Uploaded { etag }) => match etag {
            None => new is Finished && req matches ImportRequest::Finish(Err(ImportError::MissingEtag)),
            Some(e) => if trim_quotes(e@) == checksum {
                &&& new is AwaitIngest
                &&& req matches ImportRequest::Ingest { etag: t, filename: f }
                &&& t@ == checksum
                &&& f@ == filename@
            } else {
                &&& new is Finished
                &&& req matches ImportRequest::Finish(Err(ImportError::EtagMismatch { expected: x, got: g }))
                &&& x@ == checksum
                &&& g@ == trim_quotes(e@)
            },
        },
        (ImportPhase::AwaitIngest, ImportEvent::IngestReplied(r)) => if r.success && r.result is Some {
            after_status(r.result->Some_0, 0, new, req)
        } else {
            envelope_failure(r, new, req)
        },
        (ImportPhase::Polling { attempts }, ImportEvent::PollReplied(r)) => if r.success && r.result is Some {
            after_status(r.result->Some_0, attempts as int, new, req)
        } else {
            envelope_failure(r, new, req)
        },
        _ => new is Finished && req matches ImportRequest::Finish(Err(ImportError::UnexpectedReply)),
    }
}

impl ImportSession {
    /// Starts the import of a script with the given checksum: the first
    /// request announces the checksum.
    pub fn start(checksum: String) -> (r: (ImportSession, ImportRequest))
        ensures
            r.0.checksum@ == checksum@,
            r.0.phase is AwaitInit,
            r.1 matches ImportRequest::Init { etag } && etag@ == checksum@,
    {
        let etag = checksum.clone();
        (ImportSession { checksum, phase: ImportPhase::AwaitInit }, ImportRequest::Init { etag })
    }

    fn after_status(&mut self, status: &ImportStatus, attempts: usize) -> (req: ImportRequest)
        ensures
            final(self).checksum == old(self).checksum,
            after_status(*status, attempts as int, final(self).phase, req),
    {
        match poll_decision(status, attempts) {
            PollDecision::Complete => {
                self.phase = ImportPhase::Finished;
                ImportRequest::Finish(Ok(()))
            },
            PollDecision::Failed(m) => {
                self.phase = ImportPhase::Finished;
                ImportRequest::Finish(Err(ImportError::ImportFailed(m)))
            },
            PollDecision::TimedOut => {
                self.phase = ImportPhase::Finished;
                ImportRequest::Finish(Err(ImportError::TimedOut { attempts: MAX_POLL_ATTEMPTS }))
            },
            PollDecision::Continue { attempts, bookmark } => {
                self.phase = ImportPhase::Polling { attempts };
                ImportRequest::Poll { bookmark }
            },
        }
    }

    fn fail_envelope<T: std::fmt::Debug>(&mut self, r: CloudflareResponse<T>) -> (req: ImportRequest)
        requires
            !(r.success && r.result is Some),
        ensures
            final(self).checksum == old(self).checksum,
            envelope_failure(r, final(self).phase, req),
    {
        self.phase = ImportPhase::Finished;
        match r.into_result() {
            Err(e) => ImportRequest::Finish(Err(e)),
            Ok(_) => ImportRequest::Finish(Err(ImportError::MissingResult)),
        }
    }

    /// Takes the answer to the last request and returns the next request.
    pub fn on_event(&mut self, event: ImportEvent) -> (req: ImportRequest)
        ensures
            final(self).checksum == old(self).checksum,
            import_step(old(self).checksum@, old(self).phase, event, final(self).phase, req),
    {
        if let ImportPhase::Finished = self.phase {
            return ImportRequest::Finish(Err(ImportError::UnexpectedReply));
        }
        if let ImportEvent::TransportFailed(m) = event {
            self.phase = ImportPhase::Finished;
            return ImportRequest::Finish(Err(ImportError::Transport(m)));
        }
        let mut phase = ImportPhase::Finished;
        std::mem::swap(&mut self.phase, &mut phase);
        match (phase, event) {
            (ImportPhase::AwaitInit, ImportEvent::InitReplied(r)) => {
                if r.success && r.result.is_some() {
                    match r.result {
                        Some(InitResult::Upload(u)) => {
                            self.phase = ImportPhase::AwaitUpload { filename: u.filename };
                            ImportRequest::Upload { url: u.upload_url }
                        },
                        Some(InitResult::Status(s)) => self.after_status(&s, 0),
                        None => ImportRequest::Finish(Err(ImportError::MissingResult)),
                    }
                } else {
                    self.fail_envelope(r)
                }
            },
            (ImportPhase::AwaitUpload { filename }, ImportEvent::Uploaded { etag }) => {
                match etag {
                    None => ImportRequest::Finish(Err(ImportError::MissingEtag)),
                    Some(e) => {
                        let got = text_trim_quotes(e.as_str());
                        if text_equals(got.as_str(), self.checksum.as_str()) {
                            self.phase = ImportPhase::AwaitIngest;
                            ImportRequest::Ingest { etag: self.checksum.clone(), filename }
                        } else {
                            ImportRequest::Finish(
                                Err(ImportError::EtagMismatch { expected: self.checksum.clone(), got }),
                            )
                        }
                    },
                }
            },
            (ImportPhase::AwaitIngest, ImportEvent::IngestReplied(r)) => {
                if r.success && r.result.is_some() {
                    match r.result {
                        Some(s) => self.after_status(&s, 0),
                        None => ImportRequest::Finish(Err(ImportError::MissingResult)),
                    }
                } else {
                    self.fail_envelope(r)
                }
            },
            (ImportPhase::Polling { attempts }, ImportEvent::PollReplied(r)) => {
                if r.success && r.result.is_some() {
                    match r.result {
                        Some(s) => self.after_status(&s, attempts),
                        None => ImportRequest::Finish(Err(ImportError::MissingResult)),
                    }
                } else {
                    self.fail_envelope(r)
                }
            },
            _ => ImportRequest::Finish(Err(ImportError::UnexpectedReply)),
        }
    }
}

} // verus!
