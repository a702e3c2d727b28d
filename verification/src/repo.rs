//! Naming the GitHub repository that releases go to: `owner/name` strings and
//! `origin` remote URLs.

use vstd::prelude::*;

use crate::text::{
    chars_of, concat2, debug_string, debug_quoted, nonempty_piece_ranges, nonempty_pieces,
    strip_prefix, strip_prefix_at, string_of, trim, trim_bounds, trim_end_matches,
    trim_end_matches_end, trim_start_char, trim_start_char_start, trim_string,
};

verus! {

broadcast use vstd::string::group_string_axioms;

/// Why a repository could not be named.
#[derive(Debug, Clone)]
pub enum RepoError {
    /// The text, after normalisation, does not hold two non-empty
    /// `/`-separated segments.
    ExpectedOwnerName(String),
    /// The URL is not one of the recognised GitHub remote forms.
    UnrecognizedRemote(String),
    /// `git remote get-url origin` failed and nothing else named the repository.
    Undetermined,
}

/// The mathematical value of a [`RepoError`].
pub enum RepoFailure {
    ExpectedOwnerName(Seq<char>),
    UnrecognizedRemote(Seq<char>),
    Undetermined,
}

impl View for RepoError {
    type V = RepoFailure;

    open spec fn view(&self) -> RepoFailure {
        match self {
            RepoError::ExpectedOwnerName(s) => RepoFailure::ExpectedOwnerName(s@),
            RepoError::UnrecognizedRemote(s) => RepoFailure::UnrecognizedRemote(s@),
            RepoError::Undetermined => RepoFailure::Undetermined,
        }
    }
}

/// The value of a parse result.
pub open spec fn repo_result_view(r: Result<(String, String), RepoError>) -> Result<
    (Seq<char>, Seq<char>),
    RepoFailure,
> {
    match r {
        Ok((o, n)) => Ok((o@, n@)),
        Err(e) => Err(e@),
    }
}

/// The suffix that `.git` URLs and paths carry.
pub open spec fn git_suffix() -> Seq<char> {
    ".git"@
}

/// `owner/name` text after normalisation: trimmed, without leading `/`, and
/// without trailing `.git` (repeatedly).
pub open spec fn owner_repo_path(s: Seq<char>) -> Seq<char> {
    trim_end_matches(trim_start_char(trim(s), '/'), git_suffix())
}

/// The owner and name in `s`: the first two non-empty `/`-separated segments
/// of the normalised text.
pub open spec fn spec_parse_owner_repo(s: Seq<char>) -> Result<(Seq<char>, Seq<char>), RepoFailure> {
    let p = owner_repo_path(s);
    let pieces = nonempty_pieces(p, '/');
    if pieces.len() >= 2 {
        Ok((pieces[0], pieces[1]))
    } else {
        Err(RepoFailure::ExpectedOwnerName(p))
    }
}

/// A remote URL after normalisation: trimmed, without trailing `.git`.
pub open spec fn remote_path(url: Seq<char>) -> Seq<char> {
    trim_end_matches(trim(url), git_suffix())
}

/// The repository that a GitHub remote URL names: `git@github.com:`,
/// `https://github.com/`, `http://github.com/` or `ssh://git@github.com/`
/// followed by `owner/name` (tried in this order).
pub open spec fn spec_parse_git_remote(url: Seq<char>) -> Result<(Seq<char>, Seq<char>), RepoFailure> {
    let u = remote_path(url);
    match strip_prefix(u, "git@github.com:"@) {
        Some(rest) => spec_parse_owner_repo(rest),
        None => match strip_prefix(u, "https://github.com/"@) {
            Some(rest) => spec_parse_owner_repo(rest),
            None => match strip_prefix(u, "http://github.com/"@) {
                Some(rest) => spec_parse_owner_repo(rest),
                None => match strip_prefix(u, "ssh://git@github.com/"@) {
                    Some(rest) => spec_parse_owner_repo(rest),
                    None => Err(RepoFailure::UnrecognizedRemote(url)),
                },
            },
        },
    }
}

/// Splits `owner/name` text into its owner and name.
///
/// The text is trimmed, stripped of leading `/` and of trailing `.git`; the
/// first two non-empty `/`-separated segments are the owner and the name, and
/// any further segments are ignored.
pub fn parse_owner_repo(s: &str) -> (r: Result<(String, String), RepoError>)
    ensures
        repo_result_view(r) == spec_parse_owner_repo(s@),
{
    let v = chars_of(s);
    let (a, b) = trim_bounds(&v);
    let a2 = trim_start_char_start(&v, a, b, '/');
    let e = trim_end_matches_end(&v, a2, b, ".git");
    proof {
        reveal_strlit(".git");
        assert(v@.subrange(a as int, b as int).subrange(a2 - a, b - a) =~= v@.subrange(
            a2 as int,
            b as int,
        ));
        assert(trim(s@) == v@.subrange(a as int, b as int));
        assert(trim_start_char(trim(s@), '/') == v@.subrange(a2 as int, b as int));
        assert(owner_repo_path(s@) == v@.subrange(a2 as int, e as int));
    }
    let pieces = nonempty_piece_ranges(&v, a2, e, '/');
    if pieces.len() >= 2 {
        let (o0, o1) = pieces[0];
        let (n0, n1) = pieces[1];
        Ok((string_of(&v, o0, o1), string_of(&v, n0, n1)))
    } else {
        Err(RepoError::ExpectedOwnerName(string_of(&v, a2, e)))
    }
}

/// The repository that a GitHub remote URL names; see [`spec_parse_git_remote`].
pub fn parse_git_remote(url: &str) -> (r: Result<(String, String), RepoError>)
    ensures
        repo_result_view(r) == spec_parse_git_remote(url@),
{
    let v = chars_of(url);
    let (a, b) = trim_bounds(&v);
    let e = trim_end_matches_end(&v, a, b, ".git");
    let u = string_of(&v, a, e);
    let uv = chars_of(u.as_str());
    proof {
        reveal_strlit(".git");
        assert(v@.subrange(a as int, b as int).subrange(0, e - a) =~= v@.subrange(
            a as int,
            e as int,
        ));
        assert(uv@ == remote_path(url@));
    }
    if let Some(k) = strip_prefix_at(&uv, "git@github.com:") {
        let rest = string_of(&uv, k, uv.len());
        return parse_owner_repo(rest.as_str());
    }
    if let Some(k) = strip_prefix_at(&uv, "https://github.com/") {
        let rest = string_of(&uv, k, uv.len());
        return parse_owner_repo(rest.as_str());
    }
    if let Some(k) = strip_prefix_at(&uv, "http://github.com/") {
        let rest = string_of(&uv, k, uv.len());
        return parse_owner_repo(rest.as_str());
    }
    if let Some(k) = strip_prefix_at(&uv, "ssh://git@github.com/") {
        let rest = string_of(&uv, k, uv.len());
        return parse_owner_repo(rest.as_str());
    }
    Err(RepoError::UnrecognizedRemote(url.to_owned()))
}

/// Where the repository name comes from, in order of precedence: an explicit
/// `--repo`, then `$GITHUB_REPOSITORY`, then the `origin` remote. `None` asks
/// the caller to read the `origin` remote and call [`repo_from_remote`].
pub fn resolve_repo(explicit: Option<&str>, env_repo: Option<&str>) -> (r: Option<
    Result<(String, String), RepoError>,
>)
    ensures
        match (explicit, env_repo) {
            (Some(s), _) => r is Some && repo_result_view(r->0) == spec_parse_owner_repo(s@),
            (None, Some(s)) => r is Some && repo_result_view(r->0) == spec_parse_owner_repo(s@),
            (None, None) => r is None,
        },
{
    match explicit {
        Some(s) => Some(parse_owner_repo(s)),
        None => match env_repo {
            Some(s) => Some(parse_owner_repo(s)),
            None => None,
        },
    }
}

/// The repository named by the output of `git remote get-url origin`: an
/// error when the command failed, else the trimmed output read as a remote URL.
pub fn repo_from_remote(succeeded: bool, stdout: &str) -> (r: Result<(String, String), RepoError>)
    ensures
        !succeeded ==> repo_result_view(r) == Err::<(Seq<char>, Seq<char>), RepoFailure>(
            RepoFailure::Undetermined,
        ),
        succeeded ==> repo_result_view(r) == spec_parse_git_remote(trim(stdout@)),
{
    if !succeeded {
        return Err(RepoError::Undetermined);
    }
    let url = trim_string(stdout);
    parse_git_remote(url.as_str())
}

/// The message of a [`RepoError`].
pub open spec fn repo_error_message(e: RepoFailure) -> Seq<char> {
    match e {
        RepoFailure::ExpectedOwnerName(s) => "expected 'owner/name', got "@ + debug_quoted(s),
        RepoFailure::UnrecognizedRemote(u) => "unrecognized git remote URL: "@ + u,
        RepoFailure::Undetermined => "could not determine GitHub repo (set --repo or GITHUB_REPOSITORY)"@,
    }
}

impl RepoError {
    /// The human-readable message of the error.
    pub fn message(&self) -> (m: String)
        ensures
            m@ == repo_error_message(self@),
    {
        match self {
            RepoError::ExpectedOwnerName(s) => {
                let q = debug_string(s.as_str());
                concat2("expected 'owner/name', got ", q.as_str())
            },
            RepoError::UnrecognizedRemote(u) => concat2("unrecognized git remote URL: ", u.as_str()),
            RepoError::Undetermined => "could not determine GitHub repo (set --repo or GITHUB_REPOSITORY)".to_owned(),
        }
    }
}

} // verus!
