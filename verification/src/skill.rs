//! The data model of a skill: its frontmatter and the parsed skill directory.

use vstd::prelude::*;

use crate::paths::{file_name, join_path, path_file_name, path_join};
use crate::text::{concat2, push_all};

verus! {

/// Repo-local extension fields under the `metadata` key.
///
/// These fields are optional in the upstream spec but treated as required
/// by the validator for this repository.
#[derive(Debug, Clone)]
pub struct Metadata {
    /// Skill author. Required by the validator.
    pub author: Option<String>,
    /// Skill version (e.g. `"1.0.0"`). Required by the validator; drives the
    /// `<name>-v<version>` release tag.
    pub version: Option<String>,
}

/// YAML frontmatter of a `SKILL.md` file.
#[derive(Debug, Clone)]
pub struct SkillFrontmatter {
    /// Skill identifier. Must be kebab-case and match the skill's directory name.
    pub name: String,
    /// Free-form description of what the skill does and when to invoke it.
    pub description: String,
    /// SPDX license identifier (e.g. `"MIT"`). Optional in the spec.
    pub license: Option<String>,
    /// Repository-specific metadata (author, version, ...).
    pub metadata: Option<Metadata>,
}

/// A fully parsed skill on disk.
#[derive(Debug, Clone)]
pub struct ParsedSkill {
    /// Final path component of `dir_path` (i.e. the directory's own name).
    pub dir_name: String,
    /// Absolute or repo-relative path to the skill's directory.
    pub dir_path: String,
    /// Frontmatter read from `SKILL.md`.
    pub frontmatter: SkillFrontmatter,
    /// Markdown content following the frontmatter.
    pub body: String,
}

/// The name of the file that holds a skill.
pub const SKILL_FILE: &'static str = "SKILL.md";

/// Errors produced while reading a skill directory.
#[derive(Debug, Clone)]
pub enum ParseError {
    /// The skill directory exists but contains no `SKILL.md`.
    MissingSkillMd(String),
    /// The `SKILL.md` file has no `---`-delimited YAML frontmatter block.
    NoFrontmatter {
        /// Path to the offending `SKILL.md`.
        path: String,
    },
    /// The frontmatter is present but could not be read as a [`SkillFrontmatter`].
    InvalidFrontmatter {
        /// Path to the offending `SKILL.md`.
        path: String,
        /// What the frontmatter reader reported.
        source: String,
    },
    /// The directory has no usable final component.
    InvalidDirName(String),
    /// Reading `SKILL.md` failed.
    Io {
        /// Path that failed to read.
        path: String,
        /// What the reader reported.
        source: String,
    },
}

/// How reading `SKILL.md` failed.
#[derive(Debug, Clone)]
pub enum ReadFailure {
    /// There is no such file.
    NotFound,
    /// Any other failure, with its description.
    Other(String),
}

/// What the frontmatter reader made of the text of `SKILL.md`.
#[derive(Debug, Clone)]
pub enum FrontmatterRead {
    /// The text was split: the frontmatter, when there was a block, and the
    /// Markdown body after it.
    Split { data: Option<SkillFrontmatter>, content: String },
    /// The block was there but could not be read, with the reader's description.
    Invalid(String),
}

/// The path of the `SKILL.md` of a skill directory.
pub open spec fn skill_md_path(dir: Seq<char>) -> Seq<char> {
    path_join(dir, "SKILL.md"@)
}

/// Whether a parse result is `Ok` with these parts.
pub open spec fn parsed_as(
    r: Result<ParsedSkill, ParseError>,
    dir: Seq<char>,
    dir_name: Seq<char>,
    fm: SkillFrontmatter,
    body: String,
) -> bool {
    &&& r is Ok
    &&& r->Ok_0.dir_name@ == dir_name
    &&& r->Ok_0.dir_path@ == dir
    &&& r->Ok_0.frontmatter == fm
    &&& r->Ok_0.body == body
}

/// Turns the outcome of reading `dir/SKILL.md` and of reading its frontmatter
/// into a [`ParsedSkill`], or into the first error among: a missing file, a
/// failed read, unreadable frontmatter, no frontmatter block, a directory
/// without a usable name. Does not enforce the publication rules.
pub fn parse_skill(dir: &str, file: Result<FrontmatterRead, ReadFailure>) -> (r: Result<
    ParsedSkill,
    ParseError,
>)
    ensures
        match file {
            Err(ReadFailure::NotFound) => r matches Err(ParseError::MissingSkillMd(d)) && d@ == dir@,
            Err(ReadFailure::Other(e)) => r matches Err(ParseError::Io { path, source }) && path@
                == skill_md_path(dir@) && source == e,
            Ok(FrontmatterRead::Invalid(e)) => r matches Err(
                ParseError::InvalidFrontmatter { path, source },
            ) && path@ == skill_md_path(dir@) && source == e,
            Ok(FrontmatterRead::Split { data: None, content: _ }) => r matches Err(
                ParseError::NoFrontmatter { path },
            ) && path@ == skill_md_path(dir@),
            Ok(FrontmatterRead::Split { data: Some(fm), content }) => match path_file_name(dir@) {
                None => r matches Err(ParseError::InvalidDirName(d)) && d@ == dir@,
                Some(name) => parsed_as(r, dir@, name, fm, content),
            },
        },
{
    let skill_md = join_path(dir, SKILL_FILE);
    proof {
        reveal_strlit("SKILL.md");
    }
    let read = match file {
        Ok(read) => read,
        Err(ReadFailure::NotFound) => {
            return Err(ParseError::MissingSkillMd(dir.to_owned()));
        },
        Err(ReadFailure::Other(e)) => {
            return Err(ParseError::Io { path: skill_md, source: e });
        },
    };
    let (data, content) = match read {
        FrontmatterRead::Invalid(e) => {
            return Err(ParseError::InvalidFrontmatter { path: skill_md, source: e });
        },
        FrontmatterRead::Split { data, content } => (data, content),
    };
    let frontmatter = match data {
        Some(fm) => fm,
        None => {
            return Err(ParseError::NoFrontmatter { path: skill_md });
        },
    };
    let dir_name = match file_name(dir) {
        Some(n) => n,
        None => {
            return Err(ParseError::InvalidDirName(dir.to_owned()));
        },
    };
    Ok(ParsedSkill { dir_name, dir_path: dir.to_owned(), frontmatter, body: content })
}

/// The message of a [`ParseError`].
pub open spec fn parse_error_message(e: ParseError) -> Seq<char> {
    match e {
        ParseError::MissingSkillMd(d) => "skill directory has no SKILL.md: "@ + d@,
        ParseError::NoFrontmatter { path } => "SKILL.md at "@ + path@
            + " has no YAML frontmatter delimited by ---"@,
        ParseError::InvalidFrontmatter { path, source } => "failed to parse YAML frontmatter at "@
            + path@ + ": "@ + source@,
        ParseError::InvalidDirName(d) => "skill directory has no usable name: "@ + d@,
        ParseError::Io { path, source } => "I/O error reading "@ + path@ + ": "@ + source@,
    }
}

impl ParseError {
    /// The human-readable message of the error.
    pub fn message(&self) -> (m: String)
        ensures
            m@ == parse_error_message(*self),
    {
        match self {
            ParseError::MissingSkillMd(d) => concat2("skill directory has no SKILL.md: ", d.as_str()),
            ParseError::NoFrontmatter { path } => {
                let mut m = concat2("SKILL.md at ", path.as_str());
                push_all(&mut m, " has no YAML frontmatter delimited by ---");
                m
            },
            ParseError::InvalidFrontmatter { path, source } => {
                let mut m = concat2("failed to parse YAML frontmatter at ", path.as_str());
                push_all(&mut m, ": ");
                push_all(&mut m, source.as_str());
                m
            },
            ParseError::InvalidDirName(d) => concat2(
                "skill directory has no usable name: ",
                d.as_str(),
            ),
            ParseError::Io { path, source } => {
                let mut m = concat2("I/O error reading ", path.as_str());
                push_all(&mut m, ": ");
                push_all(&mut m, source.as_str());
                m
            },
        }
    }
}

} // verus!
