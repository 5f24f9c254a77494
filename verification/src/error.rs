//! What can go wrong, as values that every frontend can rank and show.

use vstd::prelude::*;

use crate::text;
use crate::text::{chars_of, contains_text, is_blank, lower_chars, trim_text};

verus! {

/// Why a text is not an S3 URI.
#[derive(Clone, Debug, PartialEq, Eq)]
pub enum UriParseError {
    InvalidScheme,
    MissingBucket,
    InvalidBucket(String),
    InvalidKey,
}

/// What a [`UriParseError`] says.
pub enum UriFault {
    InvalidScheme,
    MissingBucket,
    InvalidBucket(Seq<char>),
    InvalidKey,
}

impl View for UriParseError {
    type V = UriFault;

    open spec fn view(&self) -> UriFault {
        match *self {
            UriParseError::InvalidScheme => UriFault::InvalidScheme,
            UriParseError::MissingBucket => UriFault::MissingBucket,
            UriParseError::InvalidBucket(bucket) => UriFault::InvalidBucket(bucket@),
            UriParseError::InvalidKey => UriFault::InvalidKey,
        }
    }
}

impl UriFault {
    /// The message shown to a user.
    pub open spec fn text(self) -> Seq<char> {
        match self {
            UriFault::InvalidScheme => "S3 URI must start with s3://"@,
            UriFault::MissingBucket => "S3 URI is missing a bucket name"@,
            UriFault::InvalidBucket(bucket) => "invalid S3 bucket name: "@ + bucket,
            UriFault::InvalidKey => "S3 object key/prefix contains a control character"@,
        }
    }
}

impl UriParseError {
    /// The message shown to a user.
    pub fn message(&self) -> (message: String)
        ensures
            message@ == self@.text(),
    {
        match self {
            UriParseError::InvalidScheme => "S3 URI must start with s3://".to_owned(),
            UriParseError::MissingBucket => "S3 URI is missing a bucket name".to_owned(),
            UriParseError::InvalidBucket(bucket) => {
                "invalid S3 bucket name: ".to_owned().concat(bucket.as_str())
            },
            UriParseError::InvalidKey => {
                "S3 object key/prefix contains a control character".to_owned()
            },
        }
    }
}

/// Why a target with date placeholders cannot be used.
#[derive(Clone, Debug, PartialEq, Eq)]
pub enum TemplateError {
    UnknownPlaceholder(String),
    MinutesNotMonths,
    UnclosedPlaceholder,
    UnmatchedBrace,
    UnknownTimeZone(String),
}

/// What a [`TemplateError`] says.
pub enum TemplateFault {
    UnknownPlaceholder(Seq<char>),
    MinutesNotMonths,
    UnclosedPlaceholder,
    UnmatchedBrace,
    UnknownTimeZone(Seq<char>),
}

impl View for TemplateError {
    type V = TemplateFault;

    open spec fn view(&self) -> TemplateFault {
        match *self {
            TemplateError::UnknownPlaceholder(name) => TemplateFault::UnknownPlaceholder(name@),
            TemplateError::MinutesNotMonths => TemplateFault::MinutesNotMonths,
            TemplateError::UnclosedPlaceholder => TemplateFault::UnclosedPlaceholder,
            TemplateError::UnmatchedBrace => TemplateFault::UnmatchedBrace,
            TemplateError::UnknownTimeZone(name) => TemplateFault::UnknownTimeZone(name@),
        }
    }
}

impl TemplateFault {
    /// The message shown to a user.
    pub open spec fn text(self) -> Seq<char> {
        match self {
            TemplateFault::UnknownPlaceholder(name) => "unknown date placeholder {"@ + name
                + "}; use yyyy, yy, MM, M, dd, d, HH or H"@,
            TemplateFault::MinutesNotMonths =>
                "{mm} means minutes, not months; use {MM} for a zero-padded month"@,
            TemplateFault::UnclosedPlaceholder =>
                "a date placeholder is missing its closing brace"@,
            TemplateFault::UnmatchedBrace =>
                "unmatched } in the target; write }} for a literal brace"@,
            TemplateFault::UnknownTimeZone(name) => "unknown time zone: "@ + name
                + "; use an IANA name such as Australia/Sydney or UTC"@,
        }
    }
}

impl TemplateError {
    /// The message shown to a user.
    pub fn message(&self) -> (message: String)
        ensures
            message@ == self@.text(),
    {
        match self {
            TemplateError::UnknownPlaceholder(name) => {
                "unknown date placeholder {".to_owned().concat(name.as_str()).concat(
                    "}; use yyyy, yy, MM, M, dd, d, HH or H",
                )
            },
            TemplateError::MinutesNotMonths => {
                "{mm} means minutes, not months; use {MM} for a zero-padded month".to_owned()
            },
            TemplateError::UnclosedPlaceholder => {
                "a date placeholder is missing its closing brace".to_owned()
            },
            TemplateError::UnmatchedBrace => {
                "unmatched } in the target; write }} for a literal brace".to_owned()
            },
            TemplateError::UnknownTimeZone(name) => {
                "unknown time zone: ".to_owned().concat(name.as_str()).concat(
                    "; use an IANA name such as Australia/Sydney or UTC",
                )
            },
        }
    }
}

/// Why a watcher configuration is refused.
#[derive(Clone, Copy, Debug, PartialEq, Eq, Structural)]
pub enum ConfigError {
    EmptyId,
    EmptyName,
    ZeroPollInterval,
    ZeroExpectedInterval,
    ZeroHistoryCapacity,
}

impl ConfigError {
    /// The message shown to a user.
    pub open spec fn text(self) -> Seq<char> {
        match self {
            ConfigError::EmptyId => "watcher id cannot be empty"@,
            ConfigError::EmptyName => "watcher name cannot be empty"@,
            ConfigError::ZeroPollInterval => "poll interval must be greater than zero"@,
            ConfigError::ZeroExpectedInterval =>
                "expected interval must be greater than zero when configured"@,
            ConfigError::ZeroHistoryCapacity => "history capacity must be greater than zero"@,
        }
    }

    /// The message shown to a user.
    pub fn message(&self) -> (message: String)
        ensures
            message@ == self.text(),
    {
        match self {
            ConfigError::EmptyId => "watcher id cannot be empty".to_owned(),
            ConfigError::EmptyName => "watcher name cannot be empty".to_owned(),
            ConfigError::ZeroPollInterval => "poll interval must be greater than zero".to_owned(),
            ConfigError::ZeroExpectedInterval => {
                "expected interval must be greater than zero when configured".to_owned()
            },
            ConfigError::ZeroHistoryCapacity => {
                "history capacity must be greater than zero".to_owned()
            },
        }
    }
}

/// Stable error categories suitable for command-line and JSON-RPC clients.
#[derive(Clone, Copy, Debug, PartialEq, Eq, Structural)]
pub enum StoreErrorKind {
    Authentication,
    AccessDenied,
    NotFound,
    Network,
    Cancelled,
    AlreadyExists,
    InvalidResponse,
    Io,
    Other,
}

impl StoreErrorKind {
    /// The stable name by which clients know the category.
    pub open spec fn text(self) -> Seq<char> {
        match self {
            StoreErrorKind::Authentication => "credentials"@,
            StoreErrorKind::AccessDenied => "accessDenied"@,
            StoreErrorKind::NotFound => "notFound"@,
            StoreErrorKind::Network => "network"@,
            StoreErrorKind::Cancelled => "cancelled"@,
            StoreErrorKind::AlreadyExists => "alreadyExists"@,
            StoreErrorKind::InvalidResponse => "invalidResponse"@,
            StoreErrorKind::Io => "io"@,
            StoreErrorKind::Other => "other"@,
        }
    }

    /// The stable name by which clients know the category.
    pub fn name(self) -> (name: &'static str)
        ensures
            name@ == self.text(),
    {
        match self {
            StoreErrorKind::Authentication => "credentials",
            StoreErrorKind::AccessDenied => "accessDenied",
            StoreErrorKind::NotFound => "notFound",
            StoreErrorKind::Network => "network",
            StoreErrorKind::Cancelled => "cancelled",
            StoreErrorKind::AlreadyExists => "alreadyExists",
            StoreErrorKind::InvalidResponse => "invalidResponse",
            StoreErrorKind::Io => "io",
            StoreErrorKind::Other => "other",
        }
    }
}

/// A failure as clients are told of it.
#[derive(Clone, Debug, PartialEq, Eq)]
pub struct FailureFields {
    /// The stable name of its category.
    pub code: &'static str,
    pub message: String,
    pub retryable: bool,
}

/// A failed object-store operation.
#[derive(Clone, Debug, PartialEq)]
pub struct StoreError {
    pub kind: StoreErrorKind,
    pub message: String,
    pub retryable: bool,
}

/// What a [`StoreError`] says.
pub struct StoreErrorView {
    pub kind: StoreErrorKind,
    pub message: Seq<char>,
    pub retryable: bool,
}

impl View for StoreError {
    type V = StoreErrorView;

    open spec fn view(&self) -> StoreErrorView {
        StoreErrorView { kind: self.kind, message: self.message@, retryable: self.retryable }
    }
}

/// The messages of an error and its sources in one text: each is appended
/// unless what is there already says it.
pub open spec fn chain_text(messages: Seq<String>) -> Seq<char>
    decreases messages.len(),
{
    if messages.len() == 0 {
        Seq::empty()
    } else if messages.len() == 1 {
        messages[0]@
    } else {
        let head = chain_text(messages.drop_last());
        let next = messages.last()@;
        if text::occurs(head, next) {
            head
        } else {
            head + ": "@ + next
        }
    }
}

/// Whether any of the words occurs in a text.
pub open spec fn mentions(haystack: Seq<char>, words: Seq<Seq<char>>) -> bool {
    exists|i: int| 0 <= i < words.len() && text::occurs(haystack, #[trigger] words[i])
}

/// Words of a failed authentication.
pub open spec fn authentication_words() -> Seq<Seq<char>> {
    seq![
        "expiredtoken"@,
        "expired token"@,
        "invalidclienttokenid"@,
        "invalidaccesskeyid"@,
        "signaturedoesnotmatch"@,
        "tokenrefreshrequired"@,
        "unrecognizedclient"@,
        "credential"@,
    ]
}

/// Words of a refused access.
pub open spec fn denial_words() -> Seq<Seq<char>> {
    seq!["accessdenied"@, "access denied"@, "forbidden"@, "allaccessdisabled"@]
}

/// Words of a missing bucket or object.
pub open spec fn absence_words() -> Seq<Seq<char>> {
    seq!["nosuchbucket"@, "nosuchkey"@, "no such key"@, "not found"@, "notfound"@]
}

/// Words of a transport failure.
pub open spec fn network_words() -> Seq<Seq<char>> {
    seq!["timeout"@, "dispatch failure"@, "connection"@, "connect"@, "dns"@]
}

/// The category of a failure and whether it is worth retrying, judged from the
/// service's error code and the messages together, in lower case.
pub open spec fn failure_category(normalized: Seq<char>) -> (StoreErrorKind, bool) {
    if mentions(normalized, authentication_words()) {
        (StoreErrorKind::Authentication, false)
    } else if mentions(normalized, denial_words()) {
        (StoreErrorKind::AccessDenied, false)
    } else if mentions(normalized, absence_words()) {
        (StoreErrorKind::NotFound, false)
    } else if mentions(normalized, network_words()) {
        (StoreErrorKind::Network, true)
    } else {
        (StoreErrorKind::Other, true)
    }
}

/// The error that a failed service call is reported as.
pub open spec fn service_failure(
    operation: Seq<char>,
    code: Seq<char>,
    service_message: Option<Seq<char>>,
    chain: Seq<char>,
) -> StoreErrorView {
    let category = failure_category(text::lowered(code + " "@ + chain));
    let detail = match service_message {
        Some(message) if text::trimmed(message).len() > 0 => text::trimmed(message),
        _ => chain,
    };
    StoreErrorView {
        kind: category.0,
        message: if code.len() == 0 {
            operation + " failed: "@ + detail
        } else {
            operation + " failed: "@ + code + ": "@ + detail
        },
        retryable: category.1,
    }
}

/// Whether any of the needles occurs in the haystack.
pub fn contains_any(haystack: &Vec<char>, needles: &Vec<&str>) -> (found: bool)
    ensures
        found == mentions(haystack@, needles@.map_values(|needle: &str| needle@)),
{
    let ghost words = needles@.map_values(|needle: &str| needle@);
    let mut i: usize = 0;
    while i < needles.len()
        invariant
            i <= needles@.len(),
            words == needles@.map_values(|needle: &str| needle@),
            forall|j: int| 0 <= j < i ==> !text::occurs(haystack@, #[trigger] words[j]),
        decreases needles@.len() - i,
    {
        assert(words[i as int] == needles@[i as int]@);
        if contains_text(haystack, &chars_of(needles[i])) {
            return true;
        }
        i += 1;
    }
    false
}

fn categorize(normalized: &Vec<char>) -> (category: (StoreErrorKind, bool))
    ensures
        category == failure_category(normalized@),
{
    let authentication: Vec<&str> = vec![
        "expiredtoken",
        "expired token",
        "invalidclienttokenid",
        "invalidaccesskeyid",
        "signaturedoesnotmatch",
        "tokenrefreshrequired",
        "unrecognizedclient",
        "credential",
    ];
    assert(authentication@.map_values(|needle: &str| needle@) =~= authentication_words());
    if contains_any(normalized, &authentication) {
        return (StoreErrorKind::Authentication, false);
    }
    let denial: Vec<&str> = vec!["accessdenied", "access denied", "forbidden", "allaccessdisabled"];
    assert(denial@.map_values(|needle: &str| needle@) =~= denial_words());
    if contains_any(normalized, &denial) {
        return (StoreErrorKind::AccessDenied, false);
    }
    let absence: Vec<&str> = vec![
        "nosuchbucket",
        "nosuchkey",
        "no such key",
        "not found",
        "notfound",
    ];
    assert(absence@.map_values(|needle: &str| needle@) =~= absence_words());
    if contains_any(normalized, &absence) {
        return (StoreErrorKind::NotFound, false);
    }
    let network: Vec<&str> = vec!["timeout", "dispatch failure", "connection", "connect", "dns"];
    assert(network@.map_values(|needle: &str| needle@) =~= network_words());
    if contains_any(normalized, &network) {
        return (StoreErrorKind::Network, true);
    }
    (StoreErrorKind::Other, true)
}

/// Joins the messages of an error and its sources, outermost first.
pub fn join_chain(messages: &Vec<String>) -> (chain: String)
    ensures
        chain@ == chain_text(messages@),
{
    let mut chain = String::new();
    let mut i: usize = 0;
    while i < messages.len()
        invariant
            i <= messages@.len(),
            chain@ == chain_text(messages@.take(i as int)),
        decreases messages@.len() - i,
    {
        assert(messages@.take(i + 1).drop_last() =~= messages@.take(i as int));
        let next = messages[i].as_str();
        if i == 0 {
            chain = next.to_owned();
        } else if !contains_text(&chars_of(chain.as_str()), &chars_of(next)) {
            chain.append(": ");
            chain.append(next);
        }
        i += 1;
    }
    assert(messages@.take(i as int) =~= messages@);
    chain
}

impl StoreError {
    /// An error of the given kind.
    pub fn new(kind: StoreErrorKind, message: String, retryable: bool) -> (error: Self)
        ensures
            error == (StoreError { kind, message, retryable }),
    {
        StoreError { kind, message, retryable }
    }

    /// The failure as clients are told of it.
    pub fn fields(&self) -> (fields: FailureFields)
        ensures
            fields.code@ == self.kind.text(),
            fields.message@ == self.message@,
            fields.retryable == self.retryable,
    {
        FailureFields {
            code: self.kind.name(),
            message: self.message.clone(),
            retryable: self.retryable,
        }
    }

    /// An operation that was cancelled.
    pub fn cancelled() -> (error: Self)
        ensures
            error.kind == StoreErrorKind::Cancelled,
            error.message@ == "operation cancelled"@,
            !error.retryable,
    {
        StoreError::new(StoreErrorKind::Cancelled, "operation cancelled".to_owned(), false)
    }

    /// A failed file operation. `already_exists` says whether the file system
    /// reported that kind of failure, `detail` is the failure in words.
    pub fn io(operation: &str, already_exists: bool, detail: &str) -> (error: Self)
        ensures
            error.kind == if already_exists {
                StoreErrorKind::AlreadyExists
            } else {
                StoreErrorKind::Io
            },
            error.message@ == operation@ + ": "@ + detail@,
            !error.retryable,
    {
        let kind = if already_exists {
            StoreErrorKind::AlreadyExists
        } else {
            StoreErrorKind::Io
        };
        StoreError::new(kind, operation.to_owned().concat(": ").concat(detail), false)
    }

    /// Categorises a failed service call.
    ///
    /// `messages` are the texts of the error and its sources, outermost first.
    /// The service's code and the whole chain decide the category; the message
    /// shows only the concise part, because the chain can carry request ids.
    pub fn aws(
        operation: &str,
        code: Option<&str>,
        service_message: Option<&str>,
        messages: &Vec<String>,
    ) -> (error: Self)
        ensures
            error@ == service_failure(
                operation@,
                match code {
                    Some(value) => value@,
                    None => Seq::empty(),
                },
                match service_message {
                    Some(value) => Some(value@),
                    None => None,
                },
                chain_text(messages@),
            ),
    {
        let chain = join_chain(messages);
        let code = match code {
            Some(value) => value.to_owned(),
            None => String::new(),
        };
        let searched = code.clone().concat(" ").concat(chain.as_str());
        let category = categorize(&lower_chars(&chars_of(searched.as_str())));
        let ghost shown = match service_message {
            Some(message) if text::trimmed(message@).len() > 0 => text::trimmed(message@),
            _ => chain@,
        };
        let detail = match service_message {
            Some(message) => {
                proof {
                    text::trimmed_is_empty_exactly_when_blank(message@);
                }
                if is_blank(message) {
                    chain
                } else {
                    trim_text(message)
                }
            },
            None => chain,
        };
        assert(detail@ == shown);
        let message = if code.as_str().is_empty() {
            operation.to_owned().concat(" failed: ").concat(detail.as_str())
        } else {
            operation.to_owned().concat(" failed: ").concat(code.as_str()).concat(": ").concat(
                detail.as_str(),
            )
        };
        StoreError::new(category.0, message, category.1)
    }
}

/// Why a watcher cannot be built or go on.
#[derive(Debug, PartialEq)]
pub enum WatcherError {
    InvalidConfig(ConfigError),
    InvalidTemplate(TemplateError),
    EventChannelClosed,
}

/// What a [`WatcherError`] says.
pub enum WatcherFault {
    InvalidConfig(ConfigError),
    InvalidTemplate(TemplateFault),
    EventChannelClosed,
}

impl View for WatcherError {
    type V = WatcherFault;

    open spec fn view(&self) -> WatcherFault {
        match *self {
            WatcherError::InvalidConfig(error) => WatcherFault::InvalidConfig(error),
            WatcherError::InvalidTemplate(error) => WatcherFault::InvalidTemplate(error@),
            WatcherError::EventChannelClosed => WatcherFault::EventChannelClosed,
        }
    }
}

impl WatcherFault {
    /// The message shown to a user.
    pub open spec fn text(self) -> Seq<char> {
        match self {
            WatcherFault::InvalidConfig(error) => error.text(),
            WatcherFault::InvalidTemplate(error) => error.text(),
            WatcherFault::EventChannelClosed => "watcher event receiver was closed"@,
        }
    }
}

impl WatcherError {
    /// The message shown to a user.
    pub fn message(&self) -> (message: String)
        ensures
            message@ == self@.text(),
    {
        match self {
            WatcherError::InvalidConfig(error) => error.message(),
            WatcherError::InvalidTemplate(error) => error.message(),
            WatcherError::EventChannelClosed => "watcher event receiver was closed".to_owned(),
        }
    }
}

/// Only transport failures and unrecognised ones are worth retrying.
pub proof fn only_transient_failures_are_retried(
    operation: Seq<char>,
    code: Seq<char>,
    service_message: Option<Seq<char>>,
    chain: Seq<char>,
)
    ensures
        ({
            let failure = service_failure(operation, code, service_message, chain);
            failure.retryable <==> failure.kind == StoreErrorKind::Network || failure.kind
                == StoreErrorKind::Other
        }),
{
}

/// Different categories have different names, so that a client can tell them
/// apart.
pub proof fn category_names_differ(one: StoreErrorKind, other: StoreErrorKind)
    requires
        one.text() == other.text(),
    ensures
        one == other,
{
    reveal_strlit("credentials");
    reveal_strlit("accessDenied");
    reveal_strlit("notFound");
    reveal_strlit("network");
    reveal_strlit("cancelled");
    reveal_strlit("alreadyExists");
    reveal_strlit("invalidResponse");
    reveal_strlit("io");
    reveal_strlit("other");
    assert("credentials"@.len() == 11 && "accessDenied"@.len() == 12 && "notFound"@.len() == 8);
    assert("network"@.len() == 7 && "cancelled"@.len() == 9 && "alreadyExists"@.len() == 13);
    assert("invalidResponse"@.len() == 15 && "io"@.len() == 2 && "other"@.len() == 5);
}

/// Where the service explains itself, nothing of the error chain is shown.
pub proof fn service_messages_hide_the_chain(
    operation: Seq<char>,
    code: Seq<char>,
    explanation: Seq<char>,
    one: Seq<char>,
    other: Seq<char>,
)
    requires
        text::trimmed(explanation).len() > 0,
    ensures
        service_failure(operation, code, Some(explanation), one).message == service_failure(
            operation,
            code,
            Some(explanation),
            other,
        ).message,
{
}

} // verus!
