//! Publication rules for a parsed skill.
//!
//! [`validate`] checks a [`ParsedSkill`] against every rule and reports each
//! violation it finds, in a fixed order: name rules, then description rules,
//! then metadata rules.

use vstd::prelude::*;

use crate::skill::ParsedSkill;
use crate::skill::Metadata;
use crate::text::{concat2, debug_quoted, debug_string, decimal, decimal_string, push_all, chars_of, is_ascii_digit, is_ascii_lower, is_ascii_upper, is_blank, lemma_split_covers, split_char, split_ranges, str_is_blank, string_of, trim, trim_string};

verus! {

broadcast use vstd::string::group_string_axioms;

/// Longest description, in characters, that can be uploaded.
pub const MAX_DESCRIPTION_CHARS: usize = 1024;

/// A single rule violation discovered by [`validate`].
#[derive(Debug)]
pub enum ValidationError {
    /// Frontmatter `name` is missing or whitespace-only.
    NameMissing,
    /// Frontmatter `name` contains characters outside `[a-z0-9-]` or has an
    /// empty `-`-separated segment.
    NameNotKebabCase {
        /// The offending `name` value.
        name: String,
    },
    /// Frontmatter `name` does not equal the on-disk directory name.
    NameMismatch {
        /// The `name` declared in the frontmatter.
        name: String,
        /// The directory name found on disk.
        dir: String,
    },
    /// Frontmatter `description` is missing or whitespace-only.
    DescriptionMissing,
    /// Frontmatter `description` exceeds the 1024-character upload limit.
    DescriptionTooLong(usize),
    /// Frontmatter `description` contains an XML/HTML-like tag.
    DescriptionContainsXmlTag(String),
    /// `metadata.author` is required by this repo but absent or empty.
    AuthorMissing,
    /// `metadata.version` is required by this repo but absent or empty.
    VersionMissing,
    /// `metadata.version` is present but does not match the expected shape.
    InvalidVersion(String),
}

/// The mathematical value of a [`ValidationError`].
pub enum Violation {
    NameMissing,
    NameNotKebabCase(Seq<char>),
    NameMismatch(Seq<char>, Seq<char>),
    DescriptionMissing,
    DescriptionTooLong(nat),
    DescriptionContainsXmlTag(Seq<char>),
    AuthorMissing,
    VersionMissing,
    InvalidVersion(Seq<char>),
}

impl View for ValidationError {
    type V = Violation;

    open spec fn view(&self) -> Violation {
        match self {
            ValidationError::NameMissing => Violation::NameMissing,
            ValidationError::NameNotKebabCase { name } => Violation::NameNotKebabCase(name@),
            ValidationError::NameMismatch { name, dir } => Violation::NameMismatch(name@, dir@),
            ValidationError::DescriptionMissing => Violation::DescriptionMissing,
            ValidationError::DescriptionTooLong(n) => Violation::DescriptionTooLong(*n as nat),
            ValidationError::DescriptionContainsXmlTag(t) => Violation::DescriptionContainsXmlTag(
                t@,
            ),
            ValidationError::AuthorMissing => Violation::AuthorMissing,
            ValidationError::VersionMissing => Violation::VersionMissing,
            ValidationError::InvalidVersion(v) => Violation::InvalidVersion(v@),
        }
    }
}

/// Outcome of validating a single skill.
#[derive(Debug)]
pub struct ValidationReport {
    /// Directory name of the skill that was validated.
    pub dir_name: String,
    /// Every rule violation found. Empty on success.
    pub errors: Vec<ValidationError>,
}

impl Default for ValidationReport {
    /// An empty report: no directory name, no violation.
    fn default() -> (r: Self)
        ensures
            r.dir_name@ == Seq::<char>::empty(),
            r.errors@.len() == 0,
    {
        ValidationReport { dir_name: String::new(), errors: Vec::new() }
    }
}

impl ValidationReport {
    /// The violations of the report, as values.
    pub open spec fn violations(&self) -> Seq<Violation> {
        self.errors@.map_values(|e: ValidationError| e@)
    }

    /// Returns `true` when no rule violations were recorded.
    pub fn is_ok(&self) -> (b: bool)
        ensures
            b == (self.errors@.len() == 0),
    {
        self.errors.len() == 0
    }
}

// ---------------------------------------------------------------------------
// The rules, as specifications
// ---------------------------------------------------------------------------

/// A character allowed in a kebab-case name: `[a-z0-9-]`.
pub open spec fn is_kebab_char(c: char) -> bool {
    is_ascii_lower(c) || is_ascii_digit(c) || c == '-'
}

/// Kebab case: non-empty, only `[a-z0-9-]`, and no empty `-`-separated
/// segment (so no leading, trailing or doubled hyphen).
pub open spec fn kebab_case(s: Seq<char>) -> bool {
    &&& s.len() > 0
    &&& forall|i: int| 0 <= i < s.len() ==> is_kebab_char(#[trigger] s[i])
    &&& forall|k: int|
        0 <= k < split_char(s, '-').len() ==> (#[trigger] split_char(s, '-')[k]).len() > 0
}

/// One `.`-separated part of a version: digits only, non-empty, no leading
/// zero unless it is `0` itself.
pub open spec fn is_version_part(p: Seq<char>) -> bool {
    &&& p.len() > 0
    &&& forall|i: int| 0 <= i < p.len() ==> is_ascii_digit(#[trigger] p[i])
    &&& !(p.len() > 1 && p[0] == '0')
}

/// `MAJOR.MINOR.PATCH`: exactly three `.`-separated parts, each a
/// [`is_version_part`].
pub open spec fn semver_like(v: Seq<char>) -> bool {
    &&& split_char(v, '.').len() == 3
    &&& forall|k: int| 0 <= k < 3 ==> is_version_part(#[trigger] split_char(v, '.')[k])
}

/// A character that may follow `<` to open a tag: `/` or an ASCII letter.
pub open spec fn is_tag_start(c: char) -> bool {
    c == '/' || is_ascii_lower(c) || is_ascii_upper(c)
}

/// The first index at or after `k` that holds `>`.
pub open spec fn first_close(s: Seq<char>, k: int) -> Option<int>
    decreases s.len() - k,
{
    if k < 0 || k >= s.len() {
        None
    } else if s[k] == '>' {
        Some(k)
    } else {
        first_close(s, k + 1)
    }
}

/// Whether a tag opens at `i`: `<` followed by a tag start, with a `>` later on.
pub open spec fn tag_opens_at(s: Seq<char>, i: int) -> bool {
    0 <= i && i + 1 < s.len() && s[i] == '<' && is_tag_start(s[i + 1]) && first_close(s, i) is Some
}

/// The first XML/HTML-like tag at or after `i`: from its `<` through the next `>`.
pub open spec fn xml_tag_from(s: Seq<char>, i: int) -> Option<Seq<char>>
    decreases s.len() - i,
{
    if i < 0 || i >= s.len() {
        None
    } else if tag_opens_at(s, i) {
        Some(s.subrange(i, first_close(s, i)->0 + 1))
    } else {
        xml_tag_from(s, i + 1)
    }
}

/// The first XML/HTML-like tag in `s`, if any.
pub open spec fn xml_tag(s: Seq<char>) -> Option<Seq<char>> {
    xml_tag_from(s, 0)
}

/// The violations of the name rules.
pub open spec fn name_violations(name: Seq<char>, dir: Seq<char>) -> Seq<Violation> {
    if is_blank(name) {
        seq![Violation::NameMissing]
    } else if !kebab_case(name) {
        seq![Violation::NameNotKebabCase(name)]
    } else if name != dir {
        seq![Violation::NameMismatch(name, dir)]
    } else {
        seq![]
    }
}

/// The violations of the description rules.
pub open spec fn description_violations(desc: Seq<char>) -> Seq<Violation> {
    if is_blank(desc) {
        seq![Violation::DescriptionMissing]
    } else {
        (if desc.len() > MAX_DESCRIPTION_CHARS {
            seq![Violation::DescriptionTooLong(desc.len())]
        } else {
            seq![]
        }) + match xml_tag(desc) {
            Some(t) => seq![Violation::DescriptionContainsXmlTag(t)],
            None => seq![],
        }
    }
}

/// The violations of the author rule.
pub open spec fn author_violations(author: Option<Seq<char>>) -> Seq<Violation> {
    match author {
        Some(a) if !is_blank(a) => seq![],
        _ => seq![Violation::AuthorMissing],
    }
}

/// The violations of the version rules; the version is judged trimmed.
pub open spec fn version_violations(version: Option<Seq<char>>) -> Seq<Violation> {
    match version {
        None => seq![Violation::VersionMissing],
        Some(v) => if is_blank(v) {
            seq![Violation::VersionMissing]
        } else if !semver_like(trim(v)) {
            seq![Violation::InvalidVersion(trim(v))]
        } else {
            seq![]
        },
    }
}

/// The view of an optional string.
pub open spec fn opt_view(o: Option<String>) -> Option<Seq<char>> {
    match o {
        Some(s) => Some(s@),
        None => None,
    }
}

/// The violations of the metadata rules.
pub open spec fn metadata_violations(m: Option<Metadata>) -> Seq<Violation> {
    match m {
        None => seq![Violation::AuthorMissing, Violation::VersionMissing],
        Some(m) => author_violations(opt_view(m.author)) + version_violations(opt_view(m.version)),
    }
}

/// Every violation of `skill`, in the order [`validate`] reports them.
pub open spec fn violations(skill: ParsedSkill) -> Seq<Violation> {
    name_violations(skill.frontmatter.name@, skill.dir_name@) + description_violations(
        skill.frontmatter.description@,
    ) + metadata_violations(skill.frontmatter.metadata)
}

// ---------------------------------------------------------------------------
// The rules, as code
// ---------------------------------------------------------------------------

/// Whether `s` is kebab case.
pub fn is_kebab_case(s: &str) -> (b: bool)
    ensures
        b == kebab_case(s@),
{
    let v = chars_of(s);
    if v.len() == 0 {
        return false;
    }
    let mut i: usize = 0;
    while i < v.len()
        invariant
            v@ == s@,
            i <= v.len(),
            forall|k: int| 0 <= k < i ==> is_kebab_char(#[trigger] v@[k]),
        decreases v.len() - i,
    {
        let c = v[i];
        if !(('a' <= c && c <= 'z') || ('0' <= c && c <= '9') || c == '-') {
            return false;
        }
        i = i + 1;
    }
    let pieces = split_ranges(&v, 0, v.len(), '-');
    assert(v@.subrange(0, v@.len() as int) =~= v@);
    let mut k: usize = 0;
    while k < pieces.len()
        invariant
            v@ == s@,
            pieces.len() == split_char(v@, '-').len(),
            forall|j: int|
                0 <= j < pieces.len() ==> 0 <= (#[trigger] pieces@[j]).0 <= pieces@[j].1 <= v.len()
                    && v@.subrange(pieces@[j].0 as int, pieces@[j].1 as int) == split_char(
                    v@,
                    '-',
                )[j],
            k <= pieces.len(),
            forall|j: int| 0 <= j < k ==> (#[trigger] split_char(v@, '-')[j]).len() > 0,
        decreases pieces.len() - k,
    {
        let (a, b) = pieces[k];
        if a == b {
            assert(split_char(v@, '-')[k as int] =~= Seq::<char>::empty());
            return false;
        }
        k = k + 1;
    }
    true
}

/// Whether `v[a..b]` is a version part.
fn check_version_part(v: &Vec<char>, a: usize, b: usize) -> (r: bool)
    requires
        a <= b <= v.len(),
    ensures
        r == is_version_part(v@.subrange(a as int, b as int)),
{
    let ghost p = v@.subrange(a as int, b as int);
    if a == b {
        return false;
    }
    let mut i = a;
    while i < b
        invariant
            a <= i <= b <= v.len(),
            p == v@.subrange(a as int, b as int),
            forall|k: int| 0 <= k < i - a ==> is_ascii_digit(#[trigger] p[k]),
        decreases b - i,
    {
        let c = v[i];
        if !('0' <= c && c <= '9') {
            assert(p[i - a] == c);
            return false;
        }
        i = i + 1;
    }
    !(b - a > 1 && v[a] == '0')
}

/// Whether `s` is `MAJOR.MINOR.PATCH` in the sense of [`semver_like`].
pub fn is_semver_like(s: &str) -> (r: bool)
    ensures
        r == semver_like(s@),
{
    let v = chars_of(s);
    let parts = split_ranges(&v, 0, v.len(), '.');
    assert(v@.subrange(0, v@.len() as int) =~= v@);
    if parts.len() != 3 {
        return false;
    }
    let mut k: usize = 0;
    while k < 3
        invariant
            v@ == s@,
            parts.len() == 3 == split_char(v@, '.').len(),
            forall|j: int|
                0 <= j < parts.len() ==> 0 <= (#[trigger] parts@[j]).0 <= parts@[j].1 <= v.len()
                    && v@.subrange(parts@[j].0 as int, parts@[j].1 as int) == split_char(
                    v@,
                    '.',
                )[j],
            k <= 3,
            forall|j: int| 0 <= j < k ==> is_version_part(#[trigger] split_char(v@, '.')[j]),
        decreases 3 - k,
    {
        let (a, b) = parts[k];
        if !check_version_part(&v, a, b) {
            return false;
        }
        k = k + 1;
    }
    true
}

/// The first XML/HTML-like tag in `s`, if any: from a `<` that is followed by
/// `/` or an ASCII letter, through the next `>`.
pub fn find_xml_tag(s: &str) -> (r: Option<String>)
    ensures
        opt_view(r) == xml_tag(s@),
{
    let v = chars_of(s);
    let n = v.len();
    let mut i: usize = 0;
    while i < n
        invariant
            v@ == s@,
            n == v.len(),
            i <= n,
            xml_tag(v@) == xml_tag_from(v@, i as int),
        decreases n - i,
    {
        if v[i] == '<' && i + 1 < n && (v[i + 1] == '/' || ('a' <= v[i + 1] && v[i + 1] <= 'z') || (
        'A' <= v[i + 1] && v[i + 1] <= 'Z')) {
            let mut j = i + 1;
            assert(v@[i as int] != '>');
            while j < n && v[j] != '>'
                invariant
                    i < j <= n == v.len(),
                    first_close(v@, i as int) == first_close(v@, j as int),
                decreases n - j,
            {
                j = j + 1;
            }
            if j < n {
                return Some(string_of(&v, i, j + 1));
            }
        }
        i = i + 1;
    }
    None
}

/// Validates a [`ParsedSkill`] and returns every rule violation found.
///
/// The returned report is always populated with `dir_name`. Inspect
/// [`ValidationReport::is_ok`] to decide whether the skill is publishable.
pub fn validate(skill: &ParsedSkill) -> (report: ValidationReport)
    ensures
        report.dir_name@ == skill.dir_name@,
        report.violations() == violations(*skill),
{
    let mut errors: Vec<ValidationError> = Vec::new();
    let fm = &skill.frontmatter;
    let ghost name_part = name_violations(fm.name@, skill.dir_name@);
    let ghost desc_part = description_violations(fm.description@);
    let ghost meta_part = metadata_violations(fm.metadata);

    if str_is_blank(fm.name.as_str()) {
        errors.push(ValidationError::NameMissing);
    } else if !is_kebab_case(fm.name.as_str()) {
        errors.push(ValidationError::NameNotKebabCase { name: fm.name.clone() });
    } else if fm.name != skill.dir_name {
        errors.push(
            ValidationError::NameMismatch { name: fm.name.clone(), dir: skill.dir_name.clone() },
        );
    }
    assert(errors@.map_values(|e: ValidationError| e@) =~= name_part);

    if str_is_blank(fm.description.as_str()) {
        errors.push(ValidationError::DescriptionMissing);
    } else {
        let len = fm.description.as_str().unicode_len();
        if len > MAX_DESCRIPTION_CHARS {
            errors.push(ValidationError::DescriptionTooLong(len));
        }
        if let Some(tag) = find_xml_tag(fm.description.as_str()) {
            errors.push(ValidationError::DescriptionContainsXmlTag(tag));
        }
    }
    assert(errors@.map_values(|e: ValidationError| e@) =~= name_part + desc_part);

    let ghost before_meta = errors@;
    match &fm.metadata {
        None => {
            errors.push(ValidationError::AuthorMissing);
            errors.push(ValidationError::VersionMissing);
        },
        Some(m) => {
            let author_blank = match &m.author {
                Some(a) => str_is_blank(a.as_str()),
                None => true,
            };
            if author_blank {
                errors.push(ValidationError::AuthorMissing);
            }
            assert(errors@.map_values(|e: ValidationError| e@) =~= name_part + desc_part
                + author_violations(opt_view(m.author)));
            match &m.version {
                None => {
                    errors.push(ValidationError::VersionMissing);
                },
                Some(v) => {
                    let t = trim_string(v.as_str());
                    if t.as_str().unicode_len() == 0 {
                        errors.push(ValidationError::VersionMissing);
                    } else if !is_semver_like(t.as_str()) {
                        errors.push(ValidationError::InvalidVersion(t));
                    }
                },
            }
        },
    }
    assert(errors@.map_values(|e: ValidationError| e@) =~= name_part + desc_part + meta_part);
    ValidationReport { dir_name: skill.dir_name.clone(), errors }
}

// ---------------------------------------------------------------------------
// Laws
// ---------------------------------------------------------------------------

/// Every publication rule, spelled out.
pub open spec fn is_publishable(skill: ParsedSkill) -> bool {
    let fm = skill.frontmatter;
    &&& !is_blank(fm.name@)
    &&& kebab_case(fm.name@)
    &&& fm.name@ == skill.dir_name@
    &&& !is_blank(fm.description@)
    &&& fm.description@.len() <= MAX_DESCRIPTION_CHARS
    &&& xml_tag(fm.description@) is None
    &&& fm.metadata is Some
    &&& fm.metadata->0.author is Some
    &&& !is_blank(fm.metadata->0.author->0@)
    &&& fm.metadata->0.version is Some
    &&& !is_blank(fm.metadata->0.version->0@)
    &&& semver_like(trim(fm.metadata->0.version->0@))
}

/// A skill is reported without violations exactly when it meets every rule:
/// `validate(skill).is_ok()` holds iff the skill is publishable.
pub proof fn lemma_ok_iff_publishable(skill: ParsedSkill)
    ensures
        violations(skill).len() == 0 <==> is_publishable(skill),
{
}

/// Each part of the report names at most one violation of the name rules,
/// and a missing metadata block always yields both metadata violations.
pub proof fn lemma_report_shape(skill: ParsedSkill)
    ensures
        name_violations(skill.frontmatter.name@, skill.dir_name@).len() <= 1,
        skill.frontmatter.metadata is None ==> metadata_violations(skill.frontmatter.metadata)
            == seq![Violation::AuthorMissing, Violation::VersionMissing],
{
}

/// A version the rules accept holds nothing but ASCII digits and dots.
pub proof fn lemma_accepted_version_is_digits_and_dots(v: Seq<char>, i: int)
    requires
        semver_like(v),
        0 <= i < v.len(),
    ensures
        is_ascii_digit(v[i]) || v[i] == '.',
{
    if v[i] != '.' {
        lemma_split_covers(v, '.', i);
        let k = choose|k: int|
            0 <= k < split_char(v, '.').len() && (#[trigger] split_char(v, '.')[k]).contains(v[i]);
        let p = split_char(v, '.')[k];
        assert(is_version_part(p));
        let j = choose|j: int| 0 <= j < p.len() && p[j] == v[i];
        assert(is_ascii_digit(p[j]));
    }
}

/// A skill whose trimmed `metadata.version` holds a character that is
/// neither an ASCII digit nor `.` is not publishable: its report ends with
/// that version, trimmed, named invalid.
pub proof fn lemma_version_with_other_char_is_invalid(skill: ParsedSkill, i: int)
    requires
        skill.frontmatter.metadata is Some,
        skill.frontmatter.metadata->0.version is Some,
        0 <= i < trim(skill.frontmatter.metadata->0.version->0@).len(),
        !is_ascii_digit(trim(skill.frontmatter.metadata->0.version->0@)[i]),
        trim(skill.frontmatter.metadata->0.version->0@)[i] != '.',
    ensures
        violations(skill).len() > 0,
        violations(skill).last() == Violation::InvalidVersion(
            trim(skill.frontmatter.metadata->0.version->0@),
        ),
{
    let t = trim(skill.frontmatter.metadata->0.version->0@);
    if semver_like(t) {
        lemma_accepted_version_is_digits_and_dots(t, i);
    }
    let m = skill.frontmatter.metadata->0;
    assert(opt_view(m.version) == Some(m.version->0@));
    assert(version_violations(opt_view(m.version)) == seq![Violation::InvalidVersion(t)]);
}

// ---------------------------------------------------------------------------
// Messages
// ---------------------------------------------------------------------------

/// The message of a violation.
pub open spec fn violation_message(v: Violation) -> Seq<char> {
    match v {
        Violation::NameMissing => "name is empty"@,
        Violation::NameNotKebabCase(name) => "name "@ + debug_quoted(name)
            + " is not kebab-case (allowed: lowercase letters, digits, hyphens)"@,
        Violation::NameMismatch(name, dir) => "name "@ + debug_quoted(name)
            + " does not match directory name "@ + debug_quoted(dir),
        Violation::DescriptionMissing => "description is empty"@,
        Violation::DescriptionTooLong(n) => "description is too long ("@ + decimal(n)
            + " chars, max 1024)"@,
        Violation::DescriptionContainsXmlTag(t) => "description must not contain XML tags (found "@
            + debug_quoted(t) + ")"@,
        Violation::AuthorMissing => "metadata.author is required but missing"@,
        Violation::VersionMissing => "metadata.version is required but missing"@,
        Violation::InvalidVersion(v) => "metadata.version "@ + debug_quoted(v)
            + " is not a valid semver-like version (expected MAJOR.MINOR.PATCH, digits only, no leading zeros)"@,
    }
}

impl ValidationError {
    /// The human-readable message of the violation.
    pub fn message(&self) -> (m: String)
        ensures
            m@ == violation_message(self@),
    {
        match self {
            ValidationError::NameMissing => "name is empty".to_owned(),
            ValidationError::NameNotKebabCase { name } => {
                let mut m = String::new();
                push_all(&mut m, "name ");
                push_all(&mut m, debug_string(name.as_str()).as_str());
                push_all(
                    &mut m,
                    " is not kebab-case (allowed: lowercase letters, digits, hyphens)",
                );
                m
            },
            ValidationError::NameMismatch { name, dir } => {
                let mut m = String::new();
                push_all(&mut m, "name ");
                push_all(&mut m, debug_string(name.as_str()).as_str());
                push_all(&mut m, " does not match directory name ");
                push_all(&mut m, debug_string(dir.as_str()).as_str());
                m
            },
            ValidationError::DescriptionMissing => "description is empty".to_owned(),
            ValidationError::DescriptionTooLong(n) => {
                let mut m = String::new();
                push_all(&mut m, "description is too long (");
                push_all(&mut m, decimal_string(*n as u64).as_str());
                push_all(&mut m, " chars, max 1024)");
                m
            },
            ValidationError::DescriptionContainsXmlTag(t) => {
                let mut m = String::new();
                push_all(&mut m, "description must not contain XML tags (found ");
                push_all(&mut m, debug_string(t.as_str()).as_str());
                push_all(&mut m, ")");
                m
            },
            ValidationError::AuthorMissing => "metadata.author is required but missing".to_owned(),
            ValidationError::VersionMissing => "metadata.version is required but missing".to_owned(),
            ValidationError::InvalidVersion(v) => {
                let mut m = String::new();
                push_all(&mut m, "metadata.version ");
                push_all(&mut m, debug_string(v.as_str()).as_str());
                push_all(
                    &mut m,
                    " is not a valid semver-like version (expected MAJOR.MINOR.PATCH, digits only, no leading zeros)",
                );
                m
            },
        }
    }
}

/// The lines of the violations, each `  - <message>` and a line feed.
pub open spec fn violation_lines(vs: Seq<Violation>) -> Seq<char>
    decreases vs.len(),
{
    if vs.len() == 0 {
        seq![]
    } else {
        violation_lines(vs.drop_last()) + "  - "@ + violation_message(vs.last()) + "\n"@
    }
}

/// The text of a report: `<dir>: OK` when clean, else a count line followed
/// by one line per violation.
pub open spec fn report_text(dir: Seq<char>, vs: Seq<Violation>) -> Seq<char> {
    if vs.len() == 0 {
        dir + ": OK"@
    } else {
        dir + ": "@ + decimal(vs.len()) + " error(s)\n"@ + violation_lines(vs)
    }
}

impl ValidationReport {
    /// The human-readable text of the report.
    pub fn describe(&self) -> (t: String)
        ensures
            t@ == report_text(self.dir_name@, self.violations()),
    {
        let mut t = String::new();
        push_all(&mut t, self.dir_name.as_str());
        if self.errors.len() == 0 {
            push_all(&mut t, ": OK");
            return t;
        }
        push_all(&mut t, ": ");
        push_all(&mut t, decimal_string(self.errors.len() as u64).as_str());
        push_all(&mut t, " error(s)\n");
        let ghost head = t@;
        let mut i: usize = 0;
        while i < self.errors.len()
            invariant
                i <= self.errors.len(),
                t@ == head + violation_lines(self.violations().take(i as int)),
            decreases self.errors.len() - i,
        {
            push_all(&mut t, "  - ");
            push_all(&mut t, self.errors[i].message().as_str());
            push_all(&mut t, "\n");
            assert(self.violations().take(i + 1).drop_last() =~= self.violations().take(i as int));
            i = i + 1;
        }
        assert(self.violations().take(self.errors.len() as int) =~= self.violations());
        t
    }
}

} // verus!
