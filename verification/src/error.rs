//! The errors of the library and the messages they are shown with.
use vstd::prelude::*;

use crate::text::{dec_int, concat, i64_to_string};

verus! {

/// `format!("{:?}", s)` for a string: the string in double quotes with
/// `char::escape_debug` applied to its characters.
pub uninterp spec fn debug_quoted(s: Seq<char>) -> Seq<char>;

/// The `Debug` rendering of a string slice.
#[verifier::external_body]
pub fn debug_str(s: &str) -> (r: String)
    ensures
        r@ == debug_quoted(s@),
{
    format!("{:?}", s)
}

/// What went wrong, with everything its message needs.
#[derive(Debug, Clone, PartialEq, Eq)]
pub enum Error {
    /// Quit without a message, with this exit code.
    SilentExit(u8),
    /// A message composed at the point of failure.
    Message(String),
    /// A command ended with a non-zero code; its name, code and captured stderr.
    BadExitCode(String, i32, String),
    FzfEmptyOutput,
    FzfUnknownOutput(String),
    FzfNoMatch,
    FzfError,
    FzfTerminated,
    FzfUnknownCode(i32),
    InvalidBranchLine,
    EmptyRemoteDefaultBranch,
    EmptyRemoteShowDefaultBranch,
    NoRemoteShowDefaultBranch,
    EmptyCurrentBranch,
    UncommittedChanges,
    EmptyRemoteUrl(String),
    TagNotFound(String),
    NoLatestTag,
    InvalidSemver(String),
    InvalidDateTag(String),
    EmptyDuration,
    InvalidDuration(String),
    InvalidDurationNumber(String),
    UnsupportedTimeUnit(String),
    EmptyFilter,
    TooManyFilterFields,
    InvalidIgnorePattern(String),
    InvalidIndex(u64),
    NotInRepository,
    NoOrigin,
    VersionOverflow,
    FzfReturnedAnError,
    FzfWasTerminated,
    FzfUnknownError,
    FzfKeyNotFound(String),
    UncommittedToHandle(u64),
    InvalidBranchDescription(String),
    EmptyDefaultBranch,
    InvalidRef(String),
    EmptyRemoteShowDefault,
    NoRemoteShowDefault,
    TagNotFoundQuoted(String),
    /// A tag rule whose date placeholders chrono cannot render.
    InvalidTagRule(String),
    /// Encrypted data that does not start with a salt and a nonce.
    InvalidSecretHead,
    /// AES-GCM refused to seal the data.
    EncryptFailed,
    /// The data did not authenticate.
    DecryptFailed,
    /// Nothing to encrypt or decrypt.
    EmptySecretSource,
    /// A sealed segment too long for its length prefix.
    SegmentTooLarge(u64),
    /// A segment shorter than its length prefix says.
    TruncatedSegment,
    /// The `.gitignore` file marks no secret pattern.
    NoSecretPatterns,
    /// The marked secret patterns are not valid patterns.
    InvalidSecretPatterns,
    /// An empty password was entered.
    EmptyPassword,
    /// The password and its confirmation differ.
    PasswordMismatch,
    /// A path does not lie below the directory it was taken relative to.
    PrefixNotFound,
    /// Stored index data too short to hold its version.
    CorruptedIndex,
    /// Stored index data of a version that this library does not read.
    UnsupportedIndexVersion(u32),
    /// A head that looks like a clone URL and is no URL.
    InvalidCloneUrl(String),
    /// A URL without a domain; its debug text.
    NoUrlDomain(String),
    /// No remote clones from this domain.
    NoRemoteForDomain(String),
    /// A URL without path segments; its debug text.
    EmptyUrlPath(String),
    /// A URL that does not point into a repository; its debug text.
    UrlNotInRepo(String),
    /// A clone SSH address that does not make a URL; the URL and the address.
    InvalidSsh(String, String),
    /// `-` as the head of a selection from a remote.
    LatestFromRemote,
    /// A head of a selection from a remote that is neither URL nor SSH address.
    HeadNotUrl,
    /// An owner with no repository on its remote.
    NoRemoteRepo(String),
    /// An owner all of whose remote repositories are here already.
    AllReposLocal(String),
    /// An owner with no repository on its remote, when choosing one to open.
    NoNewRepo(String),
    /// A stats name with more than one `_`.
    InvalidStatsName(String),
    /// A stats name whose index is no number.
    InvalidStatsIndex(String),
    /// A stats name whose date is no date.
    InvalidStatsDate(String),
    /// No code statistics were saved.
    NoStatsSaved,
    /// A stats file with no entry.
    StatsNotFound,
    /// An index past the entries of a stats file.
    StatsIndexOutOfBound(u64),
    /// A name that is not a configured remote.
    RemoteNotFound(String),
    /// Nothing left to choose a repository from.
    NoRepoToSelect,
    /// A creation hook that the configuration does not define.
    HookNotFound(String),
    /// A glob pattern that does not compile.
    InvalidGlob(String),
    /// A query of marked repositories that names no owner.
    TmpQueryNotOwner,
    /// Stored database data too short to hold its version.
    CorruptedData,
    /// Stored database data of another version than this one reads.
    UnsupportedVersion(u32),
}

/// The text that each error is reported with.
pub open spec fn error_message(e: Error) -> Seq<char> {
    match e {
        Error::SilentExit(_) => Seq::empty(),
        Error::Message(m) => m@,
        Error::BadExitCode(name, code, stderr) => "command '"@ + name@ + "' exited with bad code "@
            + dec_int(code as int) + ": "@ + debug_quoted(stderr@),
        Error::FzfEmptyOutput => "fzf returned empty output"@,
        Error::FzfUnknownOutput(o) => "fzf returned unknown output: "@ + debug_quoted(o@),
        Error::FzfNoMatch => "fzf no match found"@,
        Error::FzfError => "fzf returned error"@,
        Error::FzfTerminated => "fzf terminated"@,
        Error::FzfUnknownCode(c) => "fzf unknown exit code: "@ + dec_int(c as int),
        Error::InvalidBranchLine => "invalid branch line"@,
        Error::EmptyRemoteDefaultBranch => "remote default branch is empty"@,
        Error::EmptyRemoteShowDefaultBranch => "remote default branch from `git remote show` is empty"@,
        Error::NoRemoteShowDefaultBranch => "no default branch found by command `git remote show`"@,
        Error::EmptyCurrentBranch => "current branch is empty"@,
        Error::UncommittedChanges => "uncommitted changes found, please commit them first"@,
        Error::EmptyRemoteUrl(r) => "empty url for remote "@ + debug_quoted(r@),
        Error::TagNotFound(t) => "tag "@ + debug_quoted(t@) + " not found"@,
        Error::NoLatestTag => "no latest tag"@,
        Error::InvalidSemver(t) => "failed to parse tag "@ + debug_quoted(t@) + " as semver"@,
        Error::InvalidDateTag(t) => "tag "@ + debug_quoted(t@)
            + " is not a valid date format (YYYY-MM-DD or YYYY.MM.DD), please use `date-dash` or `date-dot` rule instead"@,
        Error::EmptyDuration => "duration string cannot be empty"@,
        Error::InvalidDuration(s) => "invalid duration format: "@ + debug_quoted(s@),
        Error::InvalidDurationNumber(s) => "invalid number in duration: "@ + s@,
        Error::UnsupportedTimeUnit(u) => "unsupported time unit: "@ + debug_quoted(u@)
            + ". Supported units: s, m, h, d"@,
        Error::EmptyFilter => "filter pattern cannot be empty"@,
        Error::TooManyFilterFields => "filter pattern has too many fields"@,
        Error::InvalidIgnorePattern(p) => "failed to parse ignore pattern "@ + debug_quoted(p@),
        Error::InvalidIndex(i) => "internal error, terminal_helper returned an invalid index "@
            + crate::text::dec(i as nat),
        Error::NotInRepository => "you are not in any repository"@,
        Error::NoOrigin => "repository does not have origin remote, please sync first"@,
        Error::VersionOverflow => "version number overflow"@,
        Error::FzfReturnedAnError => "fzf returned an error"@,
        Error::FzfWasTerminated => "fzf was terminated"@,
        Error::FzfUnknownError => "fzf returned an unknown error"@,
        Error::FzfKeyNotFound(k) => "could not find key "@ + k@,
        Error::UncommittedToHandle(n) => "you have "@ + crate::text::dec(n as nat)
            + if n > 1 { " uncommitted changes"@ } else { " uncommitted change"@ } + " to handle"@,
        Error::InvalidBranchDescription(l) => "invalid branch description "@ + l@ + ", please check your git command"@,
        Error::EmptyDefaultBranch => "default branch is empty"@,
        Error::InvalidRef(o) => "invalid ref output by git: "@ + o@,
        Error::EmptyRemoteShowDefault => "default branch returned by git remote show is empty"@,
        Error::NoRemoteShowDefault => "no default branch returned by git remote show, please check your git command"@,
        Error::TagNotFoundQuoted(t) => "could not find tag '"@ + t@ + "'"@,
        Error::InvalidTagRule(r) => "invalid date format in tag rule "@ + debug_quoted(r@),
        Error::InvalidSecretHead => "invalid encrypted data, head is incorrect"@,
        Error::EncryptFailed => "use aes256gcm to encrypt data: aead::Error"@,
        Error::DecryptFailed => "decrypt failed, incorrect password or content"@,
        Error::EmptySecretSource => "the source file is empty, no data to handle"@,
        Error::SegmentTooLarge(n) => "data segment is too large: "@ + crate::text::dec(n as nat)
            + ", please use a smaller buffer size"@,
        Error::TruncatedSegment => "failed to fill whole buffer"@,
        Error::NoSecretPatterns => "no secret patterns found in \".gitignore\" file"@,
        Error::InvalidSecretPatterns => "failed to parse secret patterns in \".gitignore\" file"@,
        Error::EmptyPassword => "password cannot be empty"@,
        Error::PasswordMismatch => "passwords do not match"@,
        Error::PrefixNotFound => "prefix not found"@,
        Error::CorruptedIndex => "corrupted data"@,
        Error::UnsupportedIndexVersion(v) => "unsupported version "@ + crate::text::dec(v as nat),
        Error::InvalidCloneUrl(u) => "parse clone url '"@ + u@ + "'"@,
        Error::NoUrlDomain(u) => "cannot get domain from url: "@ + u@,
        Error::NoRemoteForDomain(d) => "no matching remote found for domain: "@ + debug_quoted(d@),
        Error::EmptyUrlPath(u) => "invalid url "@ + u@ + ", path cannot be empty"@,
        Error::UrlNotInRepo(u) => "invalid url "@ + u@ + ", should be in a repo"@,
        Error::InvalidSsh(u, ssh) => "invalid ssh, parse url "@ + debug_quoted(u@) + " converted from ssh "@
            + debug_quoted(ssh@),
        Error::LatestFromRemote => "cannot use '-' to select latest when selecting from remote"@,
        Error::HeadNotUrl => "the head must be url or ssh when selecting from remote"@,
        Error::NoRemoteRepo(o) => "no remote repo in "@ + debug_quoted(o@),
        Error::AllReposLocal(o) => "all repos in "@ + debug_quoted(o@) + " exist locally, no new repo to select"@,
        Error::NoNewRepo(o) => "no new repo found in "@ + debug_quoted(o@),
        Error::InvalidStatsName(n) => "invalid stats name format '"@ + n@ + "', expect 'date_index'"@,
        Error::InvalidStatsIndex(n) => "invalid index in stats name '"@ + n@ + "', expect number"@,
        Error::InvalidStatsDate(n) => "invalid stats name '"@ + n@ + "', the date is invalid"@,
        Error::NoStatsSaved => "no stats saved"@,
        Error::StatsNotFound => "cannot find the stats"@,
        Error::StatsIndexOutOfBound(i) => "index "@ + crate::text::dec(i as nat) + " is out of bound of stats"@,
        Error::RemoteNotFound(n) => "remote "@ + debug_quoted(n@) + " not found"@,
        Error::NoRepoToSelect => "no repo to select"@,
        Error::HookNotFound(h) => "hook "@ + debug_quoted(h@) + " not found"@,
        Error::InvalidGlob(g) => "invalid glob pattern "@ + debug_quoted(g@),
        Error::TmpQueryNotOwner => "Tmp query must be owner (ends with /)"@,
        Error::CorruptedData => "corrupted data"@,
        Error::UnsupportedVersion(v) => "unsupported version "@ + crate::text::dec(v as nat),
    }
}

impl Error {
    /// The text that the error is reported with.
    pub fn message(&self) -> (r: String)
        ensures
            r@ == error_message(*self),
    {
        match self {
            Error::SilentExit(_) => String::new(),
            Error::Message(m) => m.clone(),
            Error::BadExitCode(name, code, stderr) => {
                let r = concat("command '", name.as_str());
                let r = concat(r.as_str(), "' exited with bad code ");
                let c = i64_to_string(*code as i64);
                let r = concat(r.as_str(), c.as_str());
                let r = concat(r.as_str(), ": ");
                let q = debug_str(stderr.as_str());
                concat(r.as_str(), q.as_str())
            },
            Error::FzfEmptyOutput => "fzf returned empty output".to_owned(),
            Error::FzfUnknownOutput(o) => {
                let q = debug_str(o.as_str());
                concat("fzf returned unknown output: ", q.as_str())
            },
            Error::FzfNoMatch => "fzf no match found".to_owned(),
            Error::FzfError => "fzf returned error".to_owned(),
            Error::FzfTerminated => "fzf terminated".to_owned(),
            Error::FzfUnknownCode(c) => {
                let s = i64_to_string(*c as i64);
                concat("fzf unknown exit code: ", s.as_str())
            },
            Error::InvalidBranchLine => "invalid branch line".to_owned(),
            Error::EmptyRemoteDefaultBranch => "remote default branch is empty".to_owned(),
            Error::EmptyRemoteShowDefaultBranch => "remote default branch from `git remote show` is empty".to_owned(),
            Error::NoRemoteShowDefaultBranch => "no default branch found by command `git remote show`".to_owned(),
            Error::EmptyCurrentBranch => "current branch is empty".to_owned(),
            Error::UncommittedChanges => "uncommitted changes found, please commit them first".to_owned(),
            Error::EmptyRemoteUrl(r) => {
                let q = debug_str(r.as_str());
                concat("empty url for remote ", q.as_str())
            },
            Error::TagNotFound(t) => {
                let q = debug_str(t.as_str());
                let r = concat("tag ", q.as_str());
                concat(r.as_str(), " not found")
            },
            Error::NoLatestTag => "no latest tag".to_owned(),
            Error::InvalidSemver(t) => {
                let q = debug_str(t.as_str());
                let r = concat("failed to parse tag ", q.as_str());
                concat(r.as_str(), " as semver")
            },
            Error::InvalidDateTag(t) => {
                let q = debug_str(t.as_str());
                let r = concat("tag ", q.as_str());
                concat(r.as_str(), " is not a valid date format (YYYY-MM-DD or YYYY.MM.DD), please use `date-dash` or `date-dot` rule instead")
            },
            Error::EmptyDuration => "duration string cannot be empty".to_owned(),
            Error::InvalidDuration(s) => {
                let q = debug_str(s.as_str());
                concat("invalid duration format: ", q.as_str())
            },
            Error::InvalidDurationNumber(s) => concat("invalid number in duration: ", s.as_str()),
            Error::UnsupportedTimeUnit(u) => {
                let q = debug_str(u.as_str());
                let r = concat("unsupported time unit: ", q.as_str());
                concat(r.as_str(), ". Supported units: s, m, h, d")
            },
            Error::EmptyFilter => "filter pattern cannot be empty".to_owned(),
            Error::TooManyFilterFields => "filter pattern has too many fields".to_owned(),
            Error::InvalidIgnorePattern(p) => {
                let q = debug_str(p.as_str());
                concat("failed to parse ignore pattern ", q.as_str())
            },
            Error::InvalidIndex(i) => {
                let s = crate::text::u64_to_string(*i);
                concat("internal error, terminal_helper returned an invalid index ", s.as_str())
            },
            Error::NotInRepository => "you are not in any repository".to_owned(),
            Error::NoOrigin => "repository does not have origin remote, please sync first".to_owned(),
            Error::VersionOverflow => "version number overflow".to_owned(),
            Error::FzfReturnedAnError => "fzf returned an error".to_owned(),
            Error::FzfWasTerminated => "fzf was terminated".to_owned(),
            Error::FzfUnknownError => "fzf returned an unknown error".to_owned(),
            Error::FzfKeyNotFound(k) => concat("could not find key ", k.as_str()),
            Error::UncommittedToHandle(n) => {
                let s = crate::text::u64_to_string(*n);
                let s = concat("you have ", s.as_str());
                let s = if *n > 1 { concat(s.as_str(), " uncommitted changes") } else { concat(s.as_str(), " uncommitted change") };
                concat(s.as_str(), " to handle")
            },
            Error::InvalidBranchDescription(l) => {
                let s = concat("invalid branch description ", l.as_str());
                concat(s.as_str(), ", please check your git command")
            },
            Error::EmptyDefaultBranch => "default branch is empty".to_owned(),
            Error::InvalidRef(o) => concat("invalid ref output by git: ", o.as_str()),
            Error::EmptyRemoteShowDefault => "default branch returned by git remote show is empty".to_owned(),
            Error::NoRemoteShowDefault => "no default branch returned by git remote show, please check your git command".to_owned(),
            Error::TagNotFoundQuoted(t) => {
                let s = concat("could not find tag '", t.as_str());
                concat(s.as_str(), "'")
            },
            Error::InvalidTagRule(r) => {
                let q = debug_str(r.as_str());
                concat("invalid date format in tag rule ", q.as_str())
            },
            Error::InvalidSecretHead => "invalid encrypted data, head is incorrect".to_owned(),
            Error::EncryptFailed => "use aes256gcm to encrypt data: aead::Error".to_owned(),
            Error::DecryptFailed => "decrypt failed, incorrect password or content".to_owned(),
            Error::EmptySecretSource => "the source file is empty, no data to handle".to_owned(),
            Error::SegmentTooLarge(n) => {
                let s = crate::text::u64_to_string(*n);
                let r = concat("data segment is too large: ", s.as_str());
                concat(r.as_str(), ", please use a smaller buffer size")
            },
            Error::TruncatedSegment => "failed to fill whole buffer".to_owned(),
            Error::NoSecretPatterns => "no secret patterns found in \".gitignore\" file".to_owned(),
            Error::InvalidSecretPatterns => "failed to parse secret patterns in \".gitignore\" file".to_owned(),
            Error::EmptyPassword => "password cannot be empty".to_owned(),
            Error::PasswordMismatch => "passwords do not match".to_owned(),
            Error::PrefixNotFound => "prefix not found".to_owned(),
            Error::CorruptedIndex => "corrupted data".to_owned(),
            Error::UnsupportedIndexVersion(v) => {
                let s = crate::text::u64_to_string(*v as u64);
                concat("unsupported version ", s.as_str())
            },
            Error::InvalidCloneUrl(u) => {
                let r = concat("parse clone url '", u.as_str());
                concat(r.as_str(), "'")
            },
            Error::NoUrlDomain(u) => concat("cannot get domain from url: ", u.as_str()),
            Error::NoRemoteForDomain(d) => {
                let q = debug_str(d.as_str());
                concat("no matching remote found for domain: ", q.as_str())
            },
            Error::EmptyUrlPath(u) => {
                let r = concat("invalid url ", u.as_str());
                concat(r.as_str(), ", path cannot be empty")
            },
            Error::UrlNotInRepo(u) => {
                let r = concat("invalid url ", u.as_str());
                concat(r.as_str(), ", should be in a repo")
            },
            Error::InvalidSsh(u, ssh) => {
                let q = debug_str(u.as_str());
                let r = concat("invalid ssh, parse url ", q.as_str());
                let r = concat(r.as_str(), " converted from ssh ");
                let q2 = debug_str(ssh.as_str());
                concat(r.as_str(), q2.as_str())
            },
            Error::LatestFromRemote => "cannot use '-' to select latest when selecting from remote".to_owned(),
            Error::HeadNotUrl => "the head must be url or ssh when selecting from remote".to_owned(),
            Error::NoRemoteRepo(o) => {
                let q = debug_str(o.as_str());
                concat("no remote repo in ", q.as_str())
            },
            Error::AllReposLocal(o) => {
                let q = debug_str(o.as_str());
                let r = concat("all repos in ", q.as_str());
                concat(r.as_str(), " exist locally, no new repo to select")
            },
            Error::NoNewRepo(o) => {
                let q = debug_str(o.as_str());
                concat("no new repo found in ", q.as_str())
            },
            Error::InvalidStatsName(n) => {
                let r = concat("invalid stats name format '", n.as_str());
                concat(r.as_str(), "', expect 'date_index'")
            },
            Error::InvalidStatsIndex(n) => {
                let r = concat("invalid index in stats name '", n.as_str());
                concat(r.as_str(), "', expect number")
            },
            Error::InvalidStatsDate(n) => {
                let r = concat("invalid stats name '", n.as_str());
                concat(r.as_str(), "', the date is invalid")
            },
            Error::NoStatsSaved => "no stats saved".to_owned(),
            Error::StatsNotFound => "cannot find the stats".to_owned(),
            Error::StatsIndexOutOfBound(i) => {
                let s = crate::text::u64_to_string(*i);
                let r = concat("index ", s.as_str());
                concat(r.as_str(), " is out of bound of stats")
            },
            Error::RemoteNotFound(n) => {
                let q = debug_str(n.as_str());
                let r = concat("remote ", q.as_str());
                concat(r.as_str(), " not found")
            },
            Error::NoRepoToSelect => "no repo to select".to_owned(),
            Error::TmpQueryNotOwner => "Tmp query must be owner (ends with /)".to_owned(),
            Error::CorruptedData => "corrupted data".to_owned(),
            Error::UnsupportedVersion(v) => {
                let s = crate::text::u64_to_string(*v as u64);
                concat("unsupported version ", s.as_str())
            },
            Error::InvalidGlob(g) => {
                let q = debug_str(g.as_str());
                concat("invalid glob pattern ", q.as_str())
            },
            Error::HookNotFound(h) => {
                let q = debug_str(h.as_str());
                let r = concat("hook ", q.as_str());
                concat(r.as_str(), " not found")
            },
        }
    }
}

} // verus!
