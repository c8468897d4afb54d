//! Data carried through a review run: command arguments, findings, chat
//! requests, and the error taxonomy.

use vstd::prelude::*;

verus! {

/// Minimum severity applied when the caller gives none.
pub const DEFAULT_MIN_SEVERITY: u8 = 3;

/// Arguments of a local-file analysis run.
pub struct Args {
    pub bicep_file: String,
    pub best_practices_file: String,
    pub category: Option<String>,
    pub debug: bool,
    pub minimum_severity: u8,
    pub simple: bool,
}

/// Arguments of a pull-request analysis run.
pub struct AzureDevOpsArgs {
    pub organization: String,
    pub project: String,
    pub pull_request_id: i32,
    pub pat: String,
    pub best_practices_file: String,
    pub debug: bool,
    pub minimum_severity: u8,
    pub repository: String,
    pub simple: bool,
}

/// One reviewed issue: the category it came from, the finding text, a
/// severity from 1 (suggestion) to 5 (critical), and the impact text.
/// A severity of 0 stands for a value the model gave as text rather than
/// as a number; any positive minimum severity filters it out.
#[derive(Debug, PartialEq, Clone)]
pub struct ValidationResult {
    pub category: String,
    pub finding: String,
    pub severity: u8,
    pub impact: String,
}

/// The mathematical value of a [`ValidationResult`].
#[verifier::ext_equal]
pub ghost struct FindingView {
    pub category: Seq<char>,
    pub finding: Seq<char>,
    pub severity: u8,
    pub impact: Seq<char>,
}

impl View for ValidationResult {
    type V = FindingView;

    open spec fn view(&self) -> FindingView {
        FindingView {
            category: self.category@,
            finding: self.finding@,
            severity: self.severity,
            impact: self.impact@,
        }
    }
}

impl ValidationResult {
    /// An equal copy; spelled out so that the equality is known here,
    /// which a derived clone would not give.
    pub fn duplicate(&self) -> (r: Self)
        ensures
            r@ == self@,
    {
        ValidationResult {
            category: self.category.clone(),
            finding: self.finding.clone(),
            severity: self.severity,
            impact: self.impact.clone(),
        }
    }
}

/// The aggregated report: every finding the model kept, in the order the
/// model emitted them.
#[derive(Debug, PartialEq)]
pub struct FinalReport {
    pub findings: Vec<ValidationResult>,
}

impl View for FinalReport {
    type V = Seq<FindingView>;

    open spec fn view(&self) -> Seq<FindingView> {
        self.findings@.map_values(|f: ValidationResult| f@)
    }
}

/// A changed file of a pull-request iteration whose path ends in `.bicep`.
#[derive(Debug, PartialEq)]
pub struct PullRequestFile {
    pub path: String,
    pub change_type: String,
    pub object_id: String,
    pub original_object_id: Option<String>,
}

/// The mathematical value of a [`PullRequestFile`].
#[verifier::ext_equal]
pub ghost struct PullRequestFileView {
    pub path: Seq<char>,
    pub change_type: Seq<char>,
    pub object_id: Seq<char>,
    pub original_object_id: Option<Seq<char>>,
}

impl View for PullRequestFile {
    type V = PullRequestFileView;

    open spec fn view(&self) -> PullRequestFileView {
        PullRequestFileView {
            path: self.path@,
            change_type: self.change_type@,
            object_id: self.object_id@,
            original_object_id: match self.original_object_id {
                Some(s) => Some(s@),
                None => None,
            },
        }
    }
}

/// A comment thread to be posted on a pull request.
#[derive(Debug)]
pub struct Thread {
    pub comments: Vec<ThreadComment>,
    pub status: i32,
    pub thread_context: ThreadContext,
}

/// One comment of a thread.
#[derive(Debug)]
pub struct ThreadComment {
    pub content: String,
    pub comment_type: i32,
}

/// Where a thread is anchored.
#[derive(Debug)]
pub struct ThreadContext {
    pub file_path: String,
}

/// One message of a chat-completion request.
#[derive(Debug)]
pub struct ChatMessage {
    pub role: String,
    pub content: String,
}

/// The answer format demanded of the model: plain text, or one JSON object.
#[derive(Debug)]
pub struct ResponseFormat {
    pub format_type: String,
}

/// A chat-completion request.  The temperature is held in tenths, so that
/// the library can speak of it exactly; the sender divides by ten.
#[derive(Debug)]
pub struct ChatCompletionRequest {
    pub model: String,
    pub messages: Vec<ChatMessage>,
    pub temperature_tenths: u8,
    pub response_format: ResponseFormat,
}

/// A chat-completion answer, reduced to its choices.
#[derive(Debug)]
pub struct ChatCompletionResponse {
    pub choices: Vec<Choice>,
}

/// One returned choice.
#[derive(Debug)]
pub struct Choice {
    pub message: ChatMessage,
}

impl ChatCompletionResponse {
    /// The first choice's message content, which every flow reads;
    /// `None` when the model returned no choice at all.
    pub fn first_message_content(&self) -> (r: Option<&String>)
        ensures
            self.choices@.len() > 0 ==> (r matches Some(s) && s@
                == self.choices@[0].message.content@),
            self.choices@.len() == 0 ==> r is None,
    {
        if self.choices.len() > 0 {
            Some(&self.choices[0].message.content)
        } else {
            None
        }
    }
}

/// What can go wrong in a run.
#[derive(Debug)]
pub enum ReviewError {
    /// A missing or out-of-range configuration value; raised before any
    /// network call.
    ConfigurationError { message: String },
    /// A connection-level failure.
    TransportError { message: String },
    /// A non-2xx answer from one of the services.
    RemoteServiceError { status: u16, body: String },
    /// The aggregation step's answer did not hold the expected JSON shape.
    MalformedReportError { message: String },
    /// A local file could not be read.
    FileIOError { message: String },
}

impl ReviewError {
    /// A short text naming the error, for callers that print it.
    pub fn describe(&self) -> (r: String)
        ensures
            r@ == match self {
                ReviewError::ConfigurationError { message } => "configuration error: "@
                    + message@,
                ReviewError::TransportError { message } => "transport error: "@ + message@,
                ReviewError::RemoteServiceError { status: _, body } => "remote service error: "@
                    + body@,
                ReviewError::MalformedReportError { message } => "malformed report: "@ + message@,
                ReviewError::FileIOError { message } => "file error: "@ + message@,
            },
    {
        match self {
            ReviewError::ConfigurationError { message } => {
                let mut s = String::new();
                s.append("configuration error: ");
                s.append(message.as_str());
                s
            },
            ReviewError::TransportError { message } => {
                let mut s = String::new();
                s.append("transport error: ");
                s.append(message.as_str());
                s
            },
            ReviewError::RemoteServiceError { status: _, body } => {
                let mut s = String::new();
                s.append("remote service error: ");
                s.append(body.as_str());
                s
            },
            ReviewError::MalformedReportError { message } => {
                let mut s = String::new();
                s.append("malformed report: ");
                s.append(message.as_str());
                s
            },
            ReviewError::FileIOError { message } => {
                let mut s = String::new();
                s.append("file error: ");
                s.append(message.as_str());
                s
            },
        }
    }
}

} // verus!
