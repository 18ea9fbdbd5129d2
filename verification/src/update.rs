//! The query for a newer version of the package in the Arch User Repository.
//!
//! The library sends nothing and prints nothing. It says what to ask the
//! repository, and it decides on what came back: each step that follows an
//! answer of the outside world is a function of that answer.

use vstd::prelude::*;
use vstd::string::*;

use crate::json::{as_str, as_u64, element, error_text, json_parsed, member, parse, Json};
use crate::platform::Platform;
use crate::text::{decimal, decimal_text, occurs_at, occurs_in};
use crate::version::{compare_versions, strip_revision, update_available};

verus! {

/// The outcome of a successful query.
#[derive(Clone, Debug, PartialEq, Eq)]
pub struct UpdateInfo {
    /// Whether the repository holds a newer version than the one in use.
    pub has_update: bool,
    /// The version that the repository reports, as it reports it.
    pub latest_version: String,
    /// The version in use, as the caller gave it.
    pub current_version: String,
    /// The page of the package.
    pub download_url: Option<String>,
    /// What to tell the user.
    pub release_notes: Option<String>,
    /// Not known of a package in the repository: always `None`.
    pub published_at: Option<String>,
    /// The channel that the answer comes from.
    pub source: Option<String>,
    /// Not known of a package in the repository: always `None`.
    pub sha256: Option<String>,
}

/// An `UpdateInfo` by the characters of its strings.
pub struct UpdateInfoView {
    pub has_update: bool,
    pub latest_version: Seq<char>,
    pub current_version: Seq<char>,
    pub download_url: Option<Seq<char>>,
    pub release_notes: Option<Seq<char>>,
    pub published_at: Option<Seq<char>>,
    pub source: Option<Seq<char>>,
    pub sha256: Option<Seq<char>>,
}

/// The characters of a string that may be absent.
pub open spec fn optional_text(text: Option<String>) -> Option<Seq<char>> {
    match text {
        Some(characters) => Some(characters@),
        None => None,
    }
}

impl View for UpdateInfo {
    type V = UpdateInfoView;

    open spec fn view(&self) -> UpdateInfoView {
        UpdateInfoView {
            has_update: self.has_update,
            latest_version: self.latest_version@,
            current_version: self.current_version@,
            download_url: optional_text(self.download_url),
            release_notes: optional_text(self.release_notes),
            published_at: optional_text(self.published_at),
            source: optional_text(self.source),
            sha256: optional_text(self.sha256),
        }
    }
}

/// Why a query gave no `UpdateInfo`.
#[derive(Clone, Debug, PartialEq, Eq)]
pub enum UpdateError {
    /// The query was made on a platform other than Linux.
    UnsupportedPlatform,
    /// The repository could not be reached.
    Network { cause: String },
    /// The repository answered with a status other than success.
    Api { status: u16 },
    /// The answer of the repository is no JSON document.
    Parse { cause: String },
    /// The repository does not know the package.
    NotFound,
}

/// An `UpdateError` by the characters of its strings.
pub enum UpdateErrorView {
    UnsupportedPlatform,
    Network { cause: Seq<char> },
    Api { status: u16 },
    Parse { cause: Seq<char> },
    NotFound,
}

impl View for UpdateError {
    type V = UpdateErrorView;

    open spec fn view(&self) -> UpdateErrorView {
        match self {
            UpdateError::UnsupportedPlatform => UpdateErrorView::UnsupportedPlatform,
            UpdateError::Network { cause } => UpdateErrorView::Network { cause: cause@ },
            UpdateError::Api { status } => UpdateErrorView::Api { status: *status },
            UpdateError::Parse { cause } => UpdateErrorView::Parse { cause: cause@ },
            UpdateError::NotFound => UpdateErrorView::NotFound,
        }
    }
}

/// The message that an error is reported with.
pub open spec fn error_message(error: UpdateErrorView) -> Seq<char> {
    match error {
        UpdateErrorView::UnsupportedPlatform => "AUR update check is only available on Linux"@,
        UpdateErrorView::Network { cause } => "AUR查询失败: "@ + cause,
        UpdateErrorView::Api { status } => "AUR API返回错误: "@ + decimal_text(status as nat),
        UpdateErrorView::Parse { cause } => "解析AUR响应失败: "@ + cause,
        UpdateErrorView::NotFound => "AUR中未找到sealantern包"@,
    }
}

impl UpdateError {
    /// The message to show for this error.
    pub fn message(&self) -> (text: String)
        ensures
            text@ == error_message(self@),
    {
        match self {
            UpdateError::UnsupportedPlatform => String::from_str(
                "AUR update check is only available on Linux",
            ),
            UpdateError::Network { cause } => {
                let mut text: String = String::from_str("AUR查询失败: ");
                text.append(cause.as_str());
                text
            },
            UpdateError::Api { status } => {
                let mut text: String = String::from_str("AUR API返回错误: ");
                let number: String = decimal(*status as u64);
                text.append(number.as_str());
                text
            },
            UpdateError::Parse { cause } => {
                let mut text: String = String::from_str("解析AUR响应失败: ");
                text.append(cause.as_str());
                text
            },
            UpdateError::NotFound => String::from_str("AUR中未找到sealantern包"),
        }
    }
}


/// What to ask the repository: one `GET` of `url`, sent with the header
/// `User-Agent: user_agent`.
#[derive(Clone, Debug, PartialEq, Eq)]
pub struct Request {
    pub url: String,
    pub user_agent: String,
}

/// The request that a query makes; none on a platform other than Linux.
pub fn query_request(platform: Platform) -> (request: Result<Request, UpdateError>)
    ensures
        match request {
            Ok(request) => {
                &&& platform is Linux
                &&& request.url@ == "https://aur.archlinux.org/rpc/v5/info/sealantern"@
                &&& request.user_agent@ == "SeaLantern"@
            },
            Err(error) => !(platform is Linux) && error@ == UpdateErrorView::UnsupportedPlatform,
        },
{
    match platform {
        Platform::Linux => Ok(
            Request {
                url: String::from_str("https://aur.archlinux.org/rpc/v5/info/sealantern"),
                user_agent: String::from_str("SeaLantern"),
            },
        ),
        Platform::Other => Err(UpdateError::UnsupportedPlatform),
    }
}

/// The status of a response tells of success: it is one of 200 to 299.
pub open spec fn is_success(status: u16) -> bool {
    200 <= status < 300
}

/// Accepts the status of a response, or says why not.
pub fn check_status(status: u16) -> (checked: Result<(), UpdateError>)
    ensures
        match checked {
            Ok(_) => is_success(status),
            Err(error) => !is_success(status) && error@ == (UpdateErrorView::Api { status }),
        },
{
    if 200 <= status && status < 300 {
        Ok(())
    } else {
        Err(UpdateError::Api { status })
    }
}

/// The version of the package, given how many packages the repository found
/// and the version of the first: none where it found no package, the empty
/// version where the first one has none.
pub open spec fn selected_version(count: Option<u64>, version: Option<Seq<char>>) -> Result<
    Seq<char>,
    UpdateErrorView,
> {
    if count is None || count == Some(0u64) {
        Err(UpdateErrorView::NotFound)
    } else {
        match version {
            Some(version) => Ok(version),
            None => Ok(Seq::empty()),
        }
    }
}

/// The characters of a string slice that may be absent.
pub open spec fn optional_str(text: Option<&str>) -> Option<Seq<char>> {
    match text {
        Some(characters) => Some(characters@),
        None => None,
    }
}

/// A result by the characters of its strings.
pub open spec fn version_view(found: Result<String, UpdateError>) -> Result<
    Seq<char>,
    UpdateErrorView,
> {
    match found {
        Ok(version) => Ok(version@),
        Err(error) => Err(error@),
    }
}

/// The version of the package, given the count of results and the version of
/// the first result as the answer of the repository holds them.
pub fn select_version(count: Option<u64>, version: Option<&str>) -> (found: Result<
    String,
    UpdateError,
>)
    ensures
        version_view(found) == selected_version(count, optional_str(version)),
{
    let found: u64 = match count {
        Some(n) => n,
        None => 0,
    };
    if found == 0 {
        return Err(UpdateError::NotFound);
    }
    match version {
        Some(version) => Ok(String::from_str(version)),
        None => Ok(String::new()),
    }
}

/// What a document of the repository says of the package: the member
/// `resultcount` where it is a count, and the member `Version` of the first of
/// the `results` where it is a string.
pub open spec fn listed_version(document: Json) -> Result<Seq<char>, UpdateErrorView> {
    selected_version(
        document.member("resultcount"@).unsigned(),
        document.member("results"@).element(0).member("Version"@).text(),
    )
}

/// What the body of a response says of the package.
pub open spec fn body_version(body: Seq<u8>) -> Result<Seq<char>, UpdateErrorView> {
    match json_parsed(body) {
        Ok(document) => listed_version(document),
        Err(cause) => Err(UpdateErrorView::Parse { cause }),
    }
}

/// Reads the version of the package out of the body of a response.
///
/// Fails with `Parse` where the body is no JSON document, and with `NotFound`
/// where the document counts no result.
pub fn read_latest_version(body: &[u8]) -> (found: Result<String, UpdateError>)
    ensures
        version_view(found) == body_version(body@),
{
    match parse(body) {
        Ok(document) => {
            let count: Option<u64> = as_u64(member(&document, "resultcount"));
            let first = element(member(&document, "results"), 0);
            let version: Option<&str> = as_str(member(first, "Version"));
            select_version(count, version)
        },
        Err(error) => Err(UpdateError::Parse { cause: error_text(&error) }),
    }
}


/// The command that brings the package up to date, with the helper that was
/// found or with `yay` where none was.
pub open spec fn upgrade_command(helper: Option<Seq<char>>) -> Seq<char> {
    match helper {
        Some(name) => name + " -Syu sealantern"@,
        None => "yay"@ + " -Syu sealantern"@,
    }
}

/// What to tell the user: where an update is available, both versions and the
/// command that installs it; otherwise that the version in use is the latest.
pub open spec fn release_notes(
    has_update: bool,
    current: Seq<char>,
    latest: Seq<char>,
    command: Seq<char>,
) -> Seq<char> {
    if has_update {
        "AUR 有可用更新\n\n当前版本: "@ + current + "\n最新版本: "@ + latest
            + "\n\n使用以下命令更新:\n"@ + command + "\n\n或使用其他 AUR 助手"@
    } else {
        "已是最新版本 (Arch Linux)\n当前版本: "@ + current
    }
}

/// The outcome of a query that found the version `latest` in the repository.
pub open spec fn update_info(
    current: Seq<char>,
    latest: Seq<char>,
    helper: Option<Seq<char>>,
) -> UpdateInfoView {
    UpdateInfoView {
        has_update: update_available(current, latest),
        latest_version: latest,
        current_version: current,
        download_url: Some("https://aur.archlinux.org/packages/sealantern"@),
        release_notes: Some(
            release_notes(
                update_available(current, latest),
                current,
                latest,
                upgrade_command(helper),
            ),
        ),
        published_at: None,
        source: Some("arch-aur"@),
        sha256: None,
    }
}

/// Builds the outcome of a query from the version in use, the version that the
/// repository reports and the helper that was found on the host, if any.
///
/// The versions are compared without their revisions, and stored as they came.
pub fn build_update_info(current_version: &str, latest_version: &str, helper: Option<&str>) -> (info:
    UpdateInfo)
    ensures
        info@ == update_info(current_version@, latest_version@, optional_str(helper)),
{
    let has_update: bool = compare_versions(
        strip_revision(current_version),
        strip_revision(latest_version),
    );
    let mut command: String = match helper {
        Some(name) => String::from_str(name),
        None => String::from_str("yay"),
    };
    command.append(" -Syu sealantern");
    let notes: String = if has_update {
        let mut notes: String = String::from_str("AUR 有可用更新\n\n当前版本: ");
        notes.append(current_version);
        notes.append("\n最新版本: ");
        notes.append(latest_version);
        notes.append("\n\n使用以下命令更新:\n");
        notes.append(command.as_str());
        notes.append("\n\n或使用其他 AUR 助手");
        notes
    } else {
        let mut notes: String = String::from_str("已是最新版本 (Arch Linux)\n当前版本: ");
        notes.append(current_version);
        notes
    };
    UpdateInfo {
        has_update,
        latest_version: String::from_str(latest_version),
        current_version: String::from_str(current_version),
        download_url: Some(String::from_str("https://aur.archlinux.org/packages/sealantern")),
        release_notes: Some(notes),
        published_at: None,
        source: Some(String::from_str("arch-aur")),
        sha256: None,
    }
}


/// What came of the request.
#[derive(Clone, Debug, PartialEq, Eq)]
pub enum Reply {
    /// No response came, or it could not be read to its end.
    Failed { cause: String },
    /// A response came, with this status and this body.
    Answered { status: u16, body: Vec<u8> },
}

/// A `Reply` by the characters and bytes that it holds.
pub enum ReplyView {
    Failed { cause: Seq<char> },
    Answered { status: u16, body: Seq<u8> },
}

impl View for Reply {
    type V = ReplyView;

    open spec fn view(&self) -> ReplyView {
        match self {
            Reply::Failed { cause } => ReplyView::Failed { cause: cause@ },
            Reply::Answered { status, body } => ReplyView::Answered { status: *status, body: body@ },
        }
    }
}

/// The version that a reply reports, or the error that it amounts to.
pub open spec fn reply_version(reply: ReplyView) -> Result<Seq<char>, UpdateErrorView> {
    match reply {
        ReplyView::Failed { cause } => Err(UpdateErrorView::Network { cause }),
        ReplyView::Answered { status, body } => if is_success(status) {
            body_version(body)
        } else {
            Err(UpdateErrorView::Api { status })
        },
    }
}

/// What a query returns, given the platform, the version in use, what came of
/// the request, and the helper found on the host.
pub open spec fn query_outcome(
    platform: Platform,
    current: Seq<char>,
    reply: ReplyView,
    helper: Option<Seq<char>>,
) -> Result<UpdateInfoView, UpdateErrorView> {
    if !(platform is Linux) {
        Err(UpdateErrorView::UnsupportedPlatform)
    } else {
        match reply_version(reply) {
            Ok(latest) => Ok(update_info(current, latest, helper)),
            Err(error) => Err(error),
        }
    }
}

/// A result of a query by the characters of its strings.
pub open spec fn outcome_view(outcome: Result<UpdateInfo, UpdateError>) -> Result<
    UpdateInfoView,
    UpdateErrorView,
> {
    match outcome {
        Ok(info) => Ok(info@),
        Err(error) => Err(error@),
    }
}

/// Decides a whole query at once, for a caller that holds every answer of the
/// outside world: what came of the request, and the helper found on the host.
///
/// The steps are those that a caller takes one by one between its own requests:
/// `query_request`, `check_status`, `read_latest_version`, `build_update_info`.
pub fn check_aur_update(
    platform: Platform,
    current_version: &str,
    reply: &Reply,
    helper: Option<&str>,
) -> (outcome: Result<UpdateInfo, UpdateError>)
    ensures
        outcome_view(outcome) == query_outcome(
            platform,
            current_version@,
            reply@,
            optional_str(helper),
        ),
{
    match query_request(platform) {
        Ok(_) => {},
        Err(error) => {
            return Err(error);
        },
    }
    match reply {
        Reply::Failed { cause } => Err(UpdateError::Network { cause: cause.clone() }),
        Reply::Answered { status, body } => {
            match check_status(*status) {
                Ok(_) => {},
                Err(error) => {
                    return Err(error);
                },
            }
            match read_latest_version(body.as_slice()) {
                Ok(latest) => Ok(build_update_info(current_version, latest.as_str(), helper)),
                Err(error) => Err(error),
            }
        },
    }
}

/// The lines that record the outcome of a query.
pub open spec fn log_text(info: UpdateInfoView) -> Seq<Seq<char>> {
    seq![
        "=== AUR 检查结果 ==="@,
        "has_update: "@ + (if info.has_update {
            "true"@
        } else {
            "false"@
        }),
        "source: arch-aur"@,
        "latest_version: "@ + info.latest_version,
    ]
}

/// The lines to write to the log for the outcome of a query, in order.
pub fn log_lines(info: &UpdateInfo) -> (lines: Vec<String>)
    ensures
        lines@.len() == 4,
        forall|i: int| 0 <= i < 4 ==> (#[trigger] lines@[i])@ == log_text(info@)[i],
{
    let mut flag: String = String::from_str("has_update: ");
    if info.has_update {
        flag.append("true");
    } else {
        flag.append("false");
    }
    let mut latest: String = String::from_str("latest_version: ");
    latest.append(info.latest_version.as_str());
    let mut lines: Vec<String> = Vec::new();
    lines.push(String::from_str("=== AUR 检查结果 ==="));
    lines.push(flag);
    lines.push(String::from_str("source: arch-aur"));
    lines.push(latest);
    lines
}


/// A query that is asked again gives the same result as long as the repository
/// and the host answer the same: the result depends on nothing else.
pub proof fn lemma_query_repeatable(
    platform: Platform,
    current: Seq<char>,
    reply: ReplyView,
    helper: Option<Seq<char>>,
    first: Result<UpdateInfoView, UpdateErrorView>,
    second: Result<UpdateInfoView, UpdateErrorView>,
)
    requires
        first == query_outcome(platform, current, reply, helper),
        second == query_outcome(platform, current, reply, helper),
    ensures
        first == second,
{
}

/// A query ends in exactly one of five ways: with an `UpdateInfo`, or with the
/// error that belongs to the first step that failed.
pub proof fn lemma_query_outcomes(
    platform: Platform,
    current: Seq<char>,
    reply: ReplyView,
    helper: Option<Seq<char>>,
)
    ensures
        match query_outcome(platform, current, reply, helper) {
            Err(UpdateErrorView::UnsupportedPlatform) => !(platform is Linux),
            Err(UpdateErrorView::Network { cause }) => platform is Linux && reply
                == (ReplyView::Failed { cause }),
            Err(UpdateErrorView::Api { status }) => {
                &&& platform is Linux
                &&& reply is Answered
                &&& reply->status == status
                &&& !is_success(status)
            },
            Err(UpdateErrorView::Parse { cause }) => {
                &&& platform is Linux
                &&& reply is Answered
                &&& is_success(reply->status)
                &&& json_parsed(reply->body) == Err::<Json, Seq<char>>(cause)
            },
            Err(UpdateErrorView::NotFound) => {
                &&& platform is Linux
                &&& reply is Answered
                &&& is_success(reply->status)
                &&& json_parsed(reply->body) is Ok
            },
            Ok(info) => {
                &&& platform is Linux
                &&& reply is Answered
                &&& is_success(reply->status)
                &&& json_parsed(reply->body) is Ok
                &&& info.has_update == update_available(current, info.latest_version)
                &&& info.current_version == current
            },
        },
{
}

/// The notes of an outcome fit its flag: with an update they hold the version
/// in use, the latest version and the command that installs it; without one
/// they say that the version in use is the latest.
pub proof fn lemma_notes_fit_the_flag(
    current: Seq<char>,
    latest: Seq<char>,
    helper: Option<Seq<char>>,
)
    ensures
        ({
            let info = update_info(current, latest, helper);
            let notes = info.release_notes->0;
            &&& info.release_notes is Some
            &&& info.has_update ==> occurs_in(notes, current) && occurs_in(notes, latest)
                && occurs_in(notes, upgrade_command(helper))
            &&& !info.has_update ==> notes == "已是最新版本 (Arch Linux)\n当前版本: "@ + current
        }),
{
    let info = update_info(current, latest, helper);
    let notes = info.release_notes->0;
    if info.has_update {
        let command = upgrade_command(helper);
        let a = "AUR 有可用更新\n\n当前版本: "@;
        let b = "\n最新版本: "@;
        let c = "\n\n使用以下命令更新:\n"@;
        let at_current = a.len() as int;
        let at_latest = at_current + current.len() + b.len();
        let at_command = at_latest + latest.len() + c.len();
        assert(notes.subrange(at_current, at_current + current.len()) =~= current);
        assert(notes.subrange(at_latest, at_latest + latest.len()) =~= latest);
        assert(notes.subrange(at_command, at_command + command.len()) =~= command);
        assert(occurs_at(notes, current, at_current));
        assert(occurs_at(notes, latest, at_latest));
        assert(occurs_at(notes, command, at_command));
    }
}

} // verus!
