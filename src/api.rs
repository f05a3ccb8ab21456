//! The response envelope of the remote API, the import status it carries,
//! and the errors of a remote import.

use crate::script::{decimal, push_decimal};
use crate::text::has_prefix;
use vstd::prelude::*;

verus! {

/// One error entry of a response envelope.
#[derive(Clone, Debug, PartialEq, Eq)]
pub struct CloudflareApiError {
    pub code: Option<u64>,
    pub message: String,
}

/// A response envelope: whether the call succeeded, its result if any, and
/// the errors reported.
#[derive(Clone, Debug, PartialEq, Eq)]
pub struct CloudflareResponse<T> {
    pub result: Option<T>,
    pub success: bool,
    pub errors: Vec<CloudflareApiError>,
}

/// Where to stage the script before it is ingested.
#[derive(Clone, Debug, PartialEq, Eq)]
pub struct InitUploadResult {
    pub upload_url: String,
    pub filename: String,
}

/// The answer to an import request: a staging descriptor, or the status of
/// an import that the checksum already started.
#[derive(Clone, Debug, PartialEq, Eq)]
pub enum InitResult {
    Upload(InitUploadResult),
    Status(ImportStatus),
}

/// The progress report of a remote import.
#[derive(Clone, Debug, PartialEq, Eq)]
pub struct ImportStatus {
    pub success: bool,
    pub error: Option<String>,
    pub errors: Vec<String>,
    pub messages: Vec<String>,
    pub status: Option<String>,
    pub at_bookmark: Option<String>,
}

/// Why a remote import did not complete.
#[derive(Clone, Debug, PartialEq, Eq)]
pub enum ImportError {
    /// A request could not be sent, its answer could not be read, or its HTTP
    /// status was not a success.
    Transport(String),
    /// The envelope reported failure; the text joins its errors.
    Api(String),
    /// The envelope reported success without a result.
    MissingResult,
    /// The staging upload answered without a content tag.
    MissingEtag,
    /// The staged content's tag is not the script's checksum.
    EtagMismatch { expected: String, got: String },
    /// The remote import reported failure.
    ImportFailed(String),
    /// The import did not finish within the allowed number of polls.
    TimedOut { attempts: usize },
    /// An answer arrived that the current step does not wait for.
    UnexpectedReply,
}

/// The text of one error entry: `code: message`, or the message alone.
pub open spec fn api_error_text(e: CloudflareApiError) -> Seq<char> {
    match e.code {
        Some(c) => decimal(c as nat) + ": "@ + e.message@,
        None => e.message@,
    }
}

/// The texts of the error entries, separated by `, `.
pub open spec fn joined_api_errors(errs: Seq<CloudflareApiError>) -> Seq<char>
    decreases errs.len(),
{
    if errs.len() == 0 {
        Seq::empty()
    } else if errs.len() == 1 {
        api_error_text(errs[0])
    } else {
        joined_api_errors(errs.drop_last()) + ", "@ + api_error_text(errs.last())
    }
}

/// Texts separated by `, `.
pub open spec fn joined_texts(texts: Seq<String>) -> Seq<char>
    decreases texts.len(),
{
    if texts.len() == 0 {
        Seq::empty()
    } else if texts.len() == 1 {
        texts[0]@
    } else {
        joined_texts(texts.drop_last()) + ", "@ + texts.last()@
    }
}

/// A message, or `unknown error` when it is empty.
pub open spec fn or_unknown(m: Seq<char>) -> Seq<char> {
    if m.len() == 0 {
        "unknown error"@
    } else {
        m
    }
}

/// The message of a failed envelope, before any payload description.
pub open spec fn envelope_message<T>(r: CloudflareResponse<T>) -> Seq<char> {
    or_unknown(joined_api_errors(r.errors@))
}

/// `m` is the message of the failed envelope `r`: its joined errors, or
/// `unknown error`, followed by a description of the result when it has one.
pub open spec fn failure_message<T>(r: CloudflareResponse<T>, m: Seq<char>) -> bool {
    &&& r.result is None ==> m == envelope_message(r)
    &&& r.result is Some ==> has_prefix(m, envelope_message(r) + "; payload: "@)
}

/// The failure message of an import status: its error, else its joined error
/// list when it has one, else `unknown error`.
pub open spec fn status_error_text(s: ImportStatus) -> Seq<char> {
    match s.error {
        Some(e) => e@,
        None => if s.errors@.len() > 0 {
            joined_texts(s.errors@)
        } else {
            "unknown error"@
        },
    }
}

/// The default of an absent optional field.
pub fn none<T>() -> (r: Option<T>)
    ensures
        r is None,
{
    None
}

/// Relies on the `Debug` impl of the payload, through `format!`, to describe
/// it in an error message.
#[verifier::external_body]
fn debug_text<T: std::fmt::Debug>(v: &T) -> String {
    format!("{v:?}")
}

fn push_api_error(s: &mut String, e: &CloudflareApiError)
    ensures
        final(s)@ == old(s)@ + api_error_text(*e),
{
    let ghost start = s@;
    match e.code {
        Some(c) => {
            push_decimal(s, c);
            s.append(": ");
        },
        None => {},
    }
    s.append(e.message.as_str());
    assert(s@ =~= start + api_error_text(*e));
}

/// Joins texts with `, `.
fn join_texts(texts: &Vec<String>) -> (r: String)
    ensures
        r@ == joined_texts(texts@),
{
    let mut s = String::new();
    let mut i: usize = 0;
    while i < texts.len()
        invariant
            0 <= i <= texts@.len(),
            s@ == joined_texts(texts@.take(i as int)),
        decreases texts@.len() - i,
    {
        let ghost before = s@;
        if i > 0 {
            s.append(", ");
        }
        s.append(texts[i].as_str());
        assert(texts@.take(i + 1).drop_last() =~= texts@.take(i as int));
        i = i + 1;
        assert(s@ =~= joined_texts(texts@.take(i as int)));
    }
    assert(texts@.take(texts@.len() as int) =~= texts@);
    s
}

/// The failure message of an import status.
pub fn import_status_error_message(status: &ImportStatus) -> (r: String)
    ensures
        r@ == status_error_text(*status),
{
    if let Some(err) = &status.error {
        return err.clone();
    }
    if status.errors.len() > 0 {
        return join_texts(&status.errors);
    }
    String::from_str("unknown error")
}

impl<T: std::fmt::Debug> CloudflareResponse<T> {
    /// The joined error entries, or `unknown error`, followed by a description
    /// of the result when there is one.
    pub fn error_message(&self) -> (r: String)
        ensures
            self.result is None ==> r@ == envelope_message(*self),
            self.result is Some ==> has_prefix(r@, envelope_message(*self) + "; payload: "@),
    {
        let mut s = String::new();
        let mut i: usize = 0;
        while i < self.errors.len()
            invariant
                0 <= i <= self.errors@.len(),
                s@ == joined_api_errors(self.errors@.take(i as int)),
            decreases self.errors@.len() - i,
        {
            if i > 0 {
                s.append(", ");
            }
            push_api_error(&mut s, &self.errors[i]);
            assert(self.errors@.take(i + 1).drop_last() =~= self.errors@.take(i as int));
            i = i + 1;
            assert(s@ =~= joined_api_errors(self.errors@.take(i as int)));
        }
        assert(self.errors@.take(self.errors@.len() as int) =~= self.errors@);
        if s.unicode_len() == 0 {
            s = String::from_str("unknown error");
        }
        match &self.result {
            Some(payload) => {
                let ghost head = s@;
                s.append("; payload: ");
                let d = debug_text(payload);
                s.append(d.as_str());
                assert(s@.subrange(0, (head + "; payload: "@).len() as int) =~= head + "; payload: "@);
            },
            None => {},
        }
        s
    }

    /// `Ok` exactly when the envelope reports success.
    pub fn ensure_success(&self) -> (r: Result<(), ImportError>)
        ensures
            r is Ok <==> self.success,
            r matches Err(e) ==> (e matches ImportError::Api(m) && failure_message(*self, m@)),
    {
        if self.success {
            return Ok(());
        }
        Err(ImportError::Api(self.error_message()))
    }

    /// The result of a successful envelope.
    pub fn into_result(self) -> (r: Result<T, ImportError>)
        ensures
            self.success && self.result is Some ==> r == Ok::<T, ImportError>(self.result->Some_0),
            self.success && self.result is None ==> r == Err::<T, ImportError>(ImportError::MissingResult),
            !self.success ==> (r matches Err(ImportError::Api(m)) && failure_message(self, m@)),
    {
        if self.success {
            match self.result {
                Some(v) => Ok(v),
                None => Err(ImportError::MissingResult),
            }
        } else {
            Err(ImportError::Api(self.error_message()))
        }
    }
}

/// The result of a successful envelope.
pub fn unpack_response<T: std::fmt::Debug>(response: CloudflareResponse<T>) -> (r: Result<T, ImportError>)
    ensures
        response.success && response.result is Some ==> r == Ok::<T, ImportError>(response.result->Some_0),
        response.success && response.result is None ==> r == Err::<T, ImportError>(ImportError::MissingResult),
        !response.success ==> (r matches Err(ImportError::Api(m)) && failure_message(response, m@)),
{
    response.into_result()
}

} // verus!
