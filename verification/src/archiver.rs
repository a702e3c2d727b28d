//! Naming release archives and their entries.
//!
//! Each valid skill becomes `dist/agent-skills-<name>-v<version>.zip`,
//! released under the tag `agent-skills-<name>-v<version>`. Inside the
//! archive every entry sits under the skill's directory name, and hidden
//! files and directories (a name starting with `.`) below the skill's root
//! are left out.

use vstd::prelude::*;

use crate::paths::{forward_slashes, join_path, path_join, to_forward_slashes};
use crate::skill::ParsedSkill;
use crate::validator::{lemma_ok_iff_publishable, violations};
use crate::text::{chars_of, concat2, debug_quoted, debug_string, push_all};

verus! {

broadcast use vstd::string::group_string_axioms;

/// Prefix applied to every release tag and archive filename, namespacing
/// skill releases apart from other releases in the repository.
pub const TAG_PREFIX: &'static str = "agent-skills-";

/// Errors produced while building archives.
#[derive(Debug, Clone)]
pub enum ArchiveError {
    /// The skill has no `metadata.version`, so the artifact filename and tag
    /// cannot be determined. Holds the skill's directory name.
    MissingVersion(String),
    /// File-system failure, with its description.
    Io(String),
    /// Failure while writing the archive, with its description.
    Zip(String),
    /// Failure while enumerating the skill's files, with its description.
    Walk(String),
    /// The task that writes the archive did not complete, with its description.
    Join(String),
}

/// The message of an [`ArchiveError`].
pub open spec fn archive_error_message(e: ArchiveError) -> Seq<char> {
    match e {
        ArchiveError::MissingVersion(d) => "skill "@ + debug_quoted(d@)
            + " has no metadata.version (cannot build archive)"@,
        ArchiveError::Io(m) => "I/O error: "@ + m@,
        ArchiveError::Zip(m) => "zip error: "@ + m@,
        ArchiveError::Walk(m) => "walkdir error: "@ + m@,
        ArchiveError::Join(m) => "join error: "@ + m@,
    }
}

impl ArchiveError {
    /// The human-readable message of the error.
    pub fn message(&self) -> (m: String)
        ensures
            m@ == archive_error_message(*self),
    {
        match self {
            ArchiveError::MissingVersion(d) => {
                let mut m = concat2("skill ", debug_string(d.as_str()).as_str());
                push_all(&mut m, " has no metadata.version (cannot build archive)");
                m
            },
            ArchiveError::Io(e) => concat2("I/O error: ", e.as_str()),
            ArchiveError::Zip(e) => concat2("zip error: ", e.as_str()),
            ArchiveError::Walk(e) => concat2("walkdir error: ", e.as_str()),
            ArchiveError::Join(e) => concat2("join error: ", e.as_str()),
        }
    }
}

/// Metadata about a built ZIP, used downstream by the uploader.
#[derive(Debug, Clone)]
pub struct BuiltArtifact {
    /// Skill name from the frontmatter.
    pub name: String,
    /// Skill version from `metadata.version`.
    pub version: String,
    /// GitHub release tag, always `agent-skills-<name>-v<version>`.
    pub tag: String,
    /// Bare filename of the archive, `<tag>.zip`.
    pub file_name: String,
    /// Full path to the archive inside the dist directory.
    pub zip_path: String,
}

/// The release tag of a skill version.
pub open spec fn release_tag(name: Seq<char>, version: Seq<char>) -> Seq<char> {
    "agent-skills-"@ + name + "-v"@ + version
}

/// The archive file name of a release tag.
pub open spec fn archive_file_name(tag: Seq<char>) -> Seq<char> {
    tag + ".zip"@
}

/// The artifact of `skill` in `dist`, when the skill has a version.
pub open spec fn artifact_of(a: BuiltArtifact, skill: ParsedSkill, dist: Seq<char>) -> bool {
    let version = skill.frontmatter.metadata->0.version->0@;
    &&& a.name@ == skill.frontmatter.name@
    &&& a.version@ == version
    &&& a.tag@ == release_tag(skill.frontmatter.name@, version)
    &&& a.file_name@ == archive_file_name(a.tag@)
    &&& a.zip_path@ == path_join(dist, a.file_name@)
}

/// Whether the skill has a `metadata.version`.
pub open spec fn has_version(skill: ParsedSkill) -> bool {
    skill.frontmatter.metadata is Some && skill.frontmatter.metadata->0.version is Some
}

/// The artifact that archiving `skill` into `dist` produces: its name,
/// version, tag, file name and path. Fails with
/// [`ArchiveError::MissingVersion`] when there is no `metadata.version`
/// (the version is used as written, untrimmed).
pub fn plan_archive(skill: &ParsedSkill, dist: &str) -> (r: Result<BuiltArtifact, ArchiveError>)
    ensures
        has_version(*skill) ==> r is Ok && artifact_of(r->Ok_0, *skill, dist@),
        !has_version(*skill) ==> (r matches Err(ArchiveError::MissingVersion(d)) && d@
            == skill.dir_name@),
{
    let version = match &skill.frontmatter.metadata {
        Some(m) => match &m.version {
            Some(v) => v.clone(),
            None => {
                return Err(ArchiveError::MissingVersion(skill.dir_name.clone()));
            },
        },
        None => {
            return Err(ArchiveError::MissingVersion(skill.dir_name.clone()));
        },
    };
    let name = skill.frontmatter.name.clone();
    let mut tag = String::new();
    push_all(&mut tag, TAG_PREFIX);
    push_all(&mut tag, name.as_str());
    push_all(&mut tag, "-v");
    push_all(&mut tag, version.as_str());
    let mut file_name = tag.clone();
    push_all(&mut file_name, ".zip");
    let zip_path = join_path(dist, file_name.as_str());
    proof {
        reveal_strlit("agent-skills-");
        assert(tag@ =~= release_tag(name@, version@));
    }
    Ok(BuiltArtifact { name, version, tag, file_name, zip_path })
}

/// A skill that passes validation has a version, so its archive can always
/// be planned: validating first surfaces a missing version as a rule
/// violation rather than as an archive error.
pub proof fn lemma_valid_skill_has_version(skill: ParsedSkill)
    requires
        violations(skill).len() == 0,
    ensures
        has_version(skill),
{
    lemma_ok_iff_publishable(skill);
}

/// Whether a walked entry is hidden: its name starts with `.`, and it is
/// not the root of the walk (depth 0), which is never hidden.
pub open spec fn spec_is_hidden(depth: nat, name: Option<Seq<char>>) -> bool {
    depth != 0 && match name {
        Some(n) => n.len() > 0 && n[0] == '.',
        None => false,
    }
}

/// Whether a walked entry at `depth`, with the given file name (when it is
/// valid UTF-8), is hidden and so left out of the archive.
pub fn is_hidden(depth: usize, name: Option<&str>) -> (b: bool)
    ensures
        b == spec_is_hidden(
            depth as nat,
            match name {
                Some(n) => Some(n@),
                None => None,
            },
        ),
{
    if depth == 0 {
        return false;
    }
    match name {
        Some(n) => {
            let v = chars_of(n);
            v.len() > 0 && v[0] == '.'
        },
        None => false,
    }
}

/// The archive path of a walked entry: the skill's directory name, joined
/// with the entry's path relative to the skill's root (nothing for the root
/// itself), with `/` separators, and a trailing `/` for directories.
pub open spec fn entry_name(top_dir: Seq<char>, rel: Seq<char>, is_dir: bool) -> Seq<char> {
    let p = forward_slashes(
        if rel.len() == 0 {
            top_dir
        } else {
            path_join(top_dir, rel)
        },
    );
    if is_dir {
        p + "/"@
    } else {
        p
    }
}

/// The name under which a walked entry is stored in the archive.
pub fn archive_entry_name(top_dir: &str, rel: &str, is_dir: bool) -> (r: String)
    ensures
        r@ == entry_name(top_dir@, rel@, is_dir),
{
    let rv = chars_of(rel);
    let joined = if rv.len() == 0 {
        top_dir.to_owned()
    } else {
        join_path(top_dir, rel)
    };
    let mut p = to_forward_slashes(joined.as_str());
    if is_dir {
        push_all(&mut p, "/");
    }
    p
}

} // verus!
