//! The application's action/event protocol: the front-end sends `Action`
//! values, the application answers with `Event` values. The decisions are
//! here, verified; the surrounding loop, the webview and the dialogs are
//! outside work performed by the application shell.

use crate::error::ParseError;
use vstd::prelude::*;

verus! {

/// Messages from the front-end to the application.
#[derive(Debug, PartialEq, Eq)]
pub enum Action {
    /// Build a bundle for the named site into the given directory.
    Build { name: String, url: String, directory: String },
    /// Open the output-directory picker.
    ChooseDirectory,
    /// Ask for the platform and the default output path.
    Initialize,
    /// A diagnostic message from the front-end.
    Log { msg: String },
    /// An error report from the front-end.
    Error { msg: String, uri: Option<String>, line: Option<String> },
}

/// Messages from the application to the front-end.
#[derive(Debug, PartialEq, Eq)]
pub enum Event {
    /// The user picked an output directory.
    DirectoryChosen { path: String },
    /// The platform name and default output path, answering `Initialize`.
    Initialized { platform: String, default_path: String },
    /// A requested build finished without error.
    BuildComplete,
    /// An error to display on the front-end.
    Error { msg: String },
}

impl Event {
    /// An error event carrying the given message.
    pub fn error(msg: String) -> (r: Event)
        ensures
            r == (Event::Error { msg }),
    {
        Event::Error { msg }
    }
}

/// What the application loop should do with one front-end action.
#[derive(Debug, PartialEq, Eq)]
pub enum ActionPlan {
    /// Answer immediately with an event.
    Reply(Event),
    /// Build a bundle for the given site, then answer with what
    /// `build_finished` makes of the outcome.
    RunBuild { name: String, url: String, directory: String },
    /// Open the directory picker, then answer with what `directory_chosen`
    /// makes of the outcome.
    PickDirectory,
    /// Nothing to answer: log and error reports are diagnostic only.
    Nothing,
}

/// Decide what one front-end action asks of the application.
/// `Initialize` is answered directly from the platform name and the default
/// output path; `Build` and `ChooseDirectory` name the outside work to run;
/// log and front-end error reports get no reply.
pub fn handle_action(action: Action, platform: &str, default_path: &str) -> (r: ActionPlan)
    ensures
        match action {
            Action::Initialize => r matches ActionPlan::Reply(e) && e matches Event::Initialized {
                platform: p,
                default_path: d,
            } && p@ == platform@ && d@ == default_path@,
            Action::Build { name, url, directory } => r == (ActionPlan::RunBuild {
                name,
                url,
                directory,
            }),
            Action::ChooseDirectory => r == ActionPlan::PickDirectory,
            Action::Log { .. } => r == ActionPlan::Nothing,
            Action::Error { .. } => r == ActionPlan::Nothing,
        },
{
    match action {
        Action::Initialize => ActionPlan::Reply(
            Event::Initialized {
                platform: platform.to_owned(),
                default_path: default_path.to_owned(),
            },
        ),
        Action::Build { name, url, directory } => ActionPlan::RunBuild { name, url, directory },
        Action::ChooseDirectory => ActionPlan::PickDirectory,
        Action::Log { .. } => ActionPlan::Nothing,
        Action::Error { .. } => ActionPlan::Nothing,
    }
}

/// The event answering a finished build: completion, or the failure text.
pub fn build_finished(outcome: Result<(), String>) -> (r: Event)
    ensures
        match outcome {
            Ok(_) => r == Event::BuildComplete,
            Err(m) => r matches Event::Error { msg } && msg@ == "building app: "@ + m@,
        },
{
    match outcome {
        Ok(_) => Event::BuildComplete,
        Err(m) => {
            let mut msg = "building app: ".to_owned();
            msg.append(m.as_str());
            Event::Error { msg }
        },
    }
}

/// The event answering the directory picker: the chosen path, or the
/// failure text.
pub fn directory_chosen(outcome: Result<String, String>) -> (r: Event)
    ensures
        match outcome {
            Ok(path) => r == (Event::DirectoryChosen { path }),
            Err(m) => r matches Event::Error { msg } && msg@ == "choosing directory: "@ + m@,
        },
{
    match outcome {
        Ok(path) => Event::DirectoryChosen { path },
        Err(m) => {
            let mut msg = "choosing directory: ".to_owned();
            msg.append(m.as_str());
            Event::Error { msg }
        },
    }
}

/// Make the process aware of display scaling. Platforms without a
/// process-wide scaling call need nothing; a platform shell that has one
/// performs it before building its window.
pub fn set_dpi_aware() {
}

/// How one string parses as an absolute URL: the first component is its
/// normalized text when it parses, the second whether the failure was only
/// a relative URL given without a base; what `parse_abs_url` returns.
pub uninterp spec fn url_parse_of(s: Seq<char>) -> (Option<Seq<char>>, bool);

/// How `parse_abs_url` reports `url::Url::parse`.
enum UrlParse {
    /// The input parsed; holds its normalized text.
    Parsed(String),
    /// The input is a relative URL, which cannot parse without a base.
    RelativeWithoutBase,
    /// The input cannot be a URL at all.
    Invalid,
}

/// Relies on `url::Url::parse` and `url::Url::as_str`: parsing is a pure
/// function of the string; a parsed URL renders back as its normalized
/// text, and a relative input fails with the error variant reserved for a
/// missing base.
#[verifier::external_body]
fn parse_abs_url(s: &str) -> (r: UrlParse)
    ensures
        match r {
            UrlParse::Parsed(u) => url_parse_of(s@).0 == Some(u@),
            UrlParse::RelativeWithoutBase => url_parse_of(s@).0 is None && url_parse_of(s@).1,
            UrlParse::Invalid => url_parse_of(s@).0 is None && !url_parse_of(s@).1,
        },
{
    match url::Url::parse(s) {
        Ok(u) => UrlParse::Parsed(u.as_str().to_owned()),
        Err(url::ParseError::RelativeUrlWithoutBase) => UrlParse::RelativeWithoutBase,
        Err(_) => UrlParse::Invalid,
    }
}

/// The scheme tried for URLs written without one.
pub open spec fn https_prefixed(s: Seq<char>) -> Seq<char> {
    "https://"@ + s
}

/// parse_url accepts absolute and relative URLs: an input that fails to
/// parse only for want of a scheme is retried with an `https://` prefix;
/// any other failure is rejected as it stands.
pub fn parse_url(url: &str) -> (r: Result<String, ParseError>)
    ensures
        ({
            let outcome = url_parse_of(url@);
            match outcome.0 {
                Some(u) => r matches Ok(s) && s@ == u,
                None => if outcome.1 {
                    match url_parse_of(https_prefixed(url@)).0 {
                        Some(u) => r matches Ok(s) && s@ == u,
                        None => r matches Err(p) && p matches ParseError::Url(t) && t@ == url@,
                    }
                } else {
                    r matches Err(p) && p matches ParseError::Url(t) && t@ == url@
                },
            }
        }),
{
    match parse_abs_url(url) {
        UrlParse::Parsed(u) => Ok(u),
        UrlParse::RelativeWithoutBase => {
            let mut prefixed = "https://".to_owned();
            prefixed.append(url);
            match parse_abs_url(prefixed.as_str()) {
                UrlParse::Parsed(u) => Ok(u),
                UrlParse::RelativeWithoutBase => Err(ParseError::Url(url.to_owned())),
                UrlParse::Invalid => Err(ParseError::Url(url.to_owned())),
            }
        },
        UrlParse::Invalid => Err(ParseError::Url(url.to_owned())),
    }
}

} // verus!
