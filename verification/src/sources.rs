//! Drift of knowledge skills from the upstream sources they were written
//! against.
//!
//! A skill may carry a `.sources.json` file recording, per upstream
//! repository, the commit SHA the skill reflects (`synced`) and the upstream
//! paths that feed it. When the submodule pin moves past `synced` and the diff
//! touches one of those paths, the skill is stale. The file name starts with a
//! dot so that archives leave it out.
//!
//! Running `git` is the caller's part; this module decides what its output
//! means and what the report holds.

use vstd::prelude::*;
use vstd::utf8::{decode_utf8, encode_utf8, is_char_boundary};

use crate::archiver::spec_is_hidden;
use crate::paths::{file_name, path_file_name};
use crate::text::{
    chars_of, concat2, decimal, decimal_string, push_all, split_char, split_ranges, str_eq,
    string_of, trim, trim_string,
};

verus! {

broadcast use vstd::string::group_string_axioms;

/// Per-skill provenance file name. Hidden, so archives exclude it.
pub const SOURCES_FILE: &'static str = ".sources.json";

/// The provenance file is hidden: below the root of a skill it is never
/// put into an archive.
pub proof fn lemma_sources_file_is_hidden(depth: nat)
    requires
        depth > 0,
    ensures
        spec_is_hidden(depth, Some(SOURCES_FILE@)),
{
    reveal_strlit(".sources.json");
}

/// One upstream source the skill is derived from.
#[derive(Debug, Clone)]
pub struct SourceSpec {
    /// Path to the submodule, relative to the repository root.
    pub repo: String,
    /// Commit SHA the skill currently reflects.
    pub synced: String,
    /// Upstream pathspecs that feed the skill. Drift is only reported when the
    /// diff touches one of these.
    pub paths: Vec<String>,
}

/// Parsed `.sources.json` contents.
#[derive(Debug, Clone)]
pub struct SkillSources {
    /// Optional human-facing skill name; falls back to the directory name.
    pub skill: Option<String>,
    /// The upstream sources.
    pub sources: Vec<SourceSpec>,
}

/// Drift for one upstream source of a skill.
#[derive(Debug, Clone)]
pub struct SourceDrift {
    /// Path to the submodule.
    pub repo: String,
    /// Commit SHA the skill reflects.
    pub synced: String,
    /// Commit SHA the submodule is pinned to now.
    pub current: String,
    /// Upstream files changed between `synced` and `current` within `paths`.
    pub changed: Vec<String>,
    /// Populated when drift could not be determined (e.g. a missing commit).
    pub error: Option<String>,
}

/// Drift for a single skill.
#[derive(Debug, Clone)]
pub struct SkillDrift {
    /// Skill name (`skill` field of `.sources.json`, else directory name).
    pub skill: String,
    /// Skill directory, relative to the repository root.
    pub dir: String,
    /// The sources with drift or with an error.
    pub sources: Vec<SourceDrift>,
}

/// The full drift report.
#[derive(Debug, Clone)]
pub struct DriftReport {
    /// True when at least one skill has a source with changed files.
    pub stale: bool,
    /// Skills with drift and/or errors. Up-to-date skills are omitted.
    pub skills: Vec<SkillDrift>,
}

// ---------------------------------------------------------------------------
// Short SHAs
// ---------------------------------------------------------------------------

/// The first seven bytes of `s` when they end on a character boundary,
/// else all of `s` (`s.get(..7).unwrap_or(s)`).
pub open spec fn short_of(s: Seq<char>) -> Seq<char> {
    let b = encode_utf8(s);
    if b.len() >= 7 && is_char_boundary(b, 7) {
        decode_utf8(b.subrange(0, 7))
    } else {
        s
    }
}

/// Abbreviates a commit SHA to its first seven characters; a shorter input is
/// returned whole.
pub fn short(sha: &str) -> (r: &str)
    ensures
        r@ == short_of(sha@),
{
    let n = sha.as_bytes().len();
    if n >= 7 && sha.is_char_boundary(7) {
        let (head, _) = sha.split_at(7);
        proof {
            vstd::utf8::encode_utf8_decode_utf8(head@);
        }
        head
    } else {
        sha
    }
}

/// The abbreviation of a SHA is a prefix of it.
pub proof fn lemma_short_is_prefix(s: Seq<char>)
    ensures
        short_of(s).len() <= s.len(),
        short_of(s) == s.subrange(0, short_of(s).len() as int),
{
    let b = encode_utf8(s);
    if b.len() >= 7 && is_char_boundary(b, 7) {
        vstd::utf8::encode_utf8_valid_utf8(s);
        vstd::utf8::encode_utf8_decode_utf8(s);
        vstd::utf8::decode_utf8_split(b, 7);
        let head = decode_utf8(b.subrange(0, 7));
        let tail = decode_utf8(b.subrange(7, b.len() as int));
        assert(s == head + tail);
        assert(s.subrange(0, head.len() as int) =~= head);
    } else {
        assert(s.subrange(0, s.len() as int) =~= s);
    }
}

// ---------------------------------------------------------------------------
// Lines of command output
// ---------------------------------------------------------------------------

/// A line without the `\r` of a `\r\n` ending.
pub open spec fn strip_cr(p: Seq<char>) -> Seq<char> {
    if p.len() > 0 && p.last() == '\r' {
        p.drop_last()
    } else {
        p
    }
}

/// `str::lines`: the pieces between `\n`, each without the `\r` of a `\r\n`;
/// a final empty piece (after a trailing `\n`, or of an empty text) is not a line.
pub open spec fn text_lines(s: Seq<char>) -> Seq<Seq<char>> {
    let pieces = split_char(s, '\n');
    let body = pieces.drop_last().map_values(|p: Seq<char>| strip_cr(p));
    if pieces.last().len() == 0 {
        body
    } else {
        body.push(pieces.last())
    }
}

/// The lines of `s`, as in `str::lines`.
pub fn lines_of(s: &str) -> (r: Vec<String>)
    ensures
        r@.map_values(|l: String| l@) == text_lines(s@),
{
    let v = chars_of(s);
    let pieces = split_ranges(&v, 0, v.len(), '\n');
    assert(v@.subrange(0, v@.len() as int) =~= v@);
    let ghost ps = split_char(v@, '\n');
    proof {
        crate::text::lemma_split_nonempty(v@, '\n');
    }
    let mut r: Vec<String> = Vec::new();
    let last = pieces.len() - 1;
    let mut k: usize = 0;
    while k < last
        invariant
            v@ == s@,
            ps == split_char(v@, '\n'),
            pieces.len() == ps.len(),
            last + 1 == pieces.len(),
            forall|j: int|
                0 <= j < pieces.len() ==> 0 <= (#[trigger] pieces@[j]).0 <= pieces@[j].1 <= v.len()
                    && v@.subrange(pieces@[j].0 as int, pieces@[j].1 as int) == ps[j],
            k <= last,
            r@.map_values(|l: String| l@) == ps.take(k as int).map_values(
                |p: Seq<char>| strip_cr(p),
            ),
        decreases last - k,
    {
        let (a, b) = pieces[k];
        assert(pieces@[k as int] == (a, b));
        let line = if b > a && v[b - 1] == '\r' {
            assert(v@.subrange(a as int, b - 1) =~= ps[k as int].drop_last());
            string_of(&v, a, b - 1)
        } else {
            string_of(&v, a, b)
        };
        r.push(line);
        assert(ps.take(k + 1).map_values(|p: Seq<char>| strip_cr(p)) =~= ps.take(k as int).map_values(
            |p: Seq<char>| strip_cr(p),
        ).push(strip_cr(ps[k as int])));
        assert(r@.map_values(|l: String| l@) =~= ps.take(k as int).map_values(
            |p: Seq<char>| strip_cr(p),
        ).push(strip_cr(ps[k as int])));
        k = k + 1;
    }
    assert(ps.take(last as int) =~= ps.drop_last());
    let (a, b) = pieces[last];
    assert(pieces@[last as int] == (a, b));
    if a < b {
        r.push(string_of(&v, a, b));
        assert(r@.map_values(|l: String| l@) =~= ps.drop_last().map_values(
            |p: Seq<char>| strip_cr(p),
        ).push(ps.last()));
    }
    r
}

// ---------------------------------------------------------------------------
// Deciding drift
// ---------------------------------------------------------------------------

/// The output of a `git` command as the report uses it: trimmed.
pub fn git_output(stdout: &str) -> (r: String)
    ensures
        r@ == trim(stdout@),
{
    trim_string(stdout)
}

/// Whether the submodule is still pinned to the synced commit, in which case
/// there is no drift to look for.
pub fn pin_unchanged(spec: &SourceSpec, current: &str) -> (b: bool)
    ensures
        b == (current@ == spec.synced@),
{
    str_eq(current, spec.synced.as_str())
}

/// The drift that the output of `git diff --name-only synced current -- paths`
/// shows: one changed file per line of the trimmed output, or no drift when
/// no line remains.
pub fn drift_from_diff(spec: &SourceSpec, current: &str, diff_stdout: &str) -> (r: Option<
    SourceDrift,
>)
    ensures
        match r {
            None => text_lines(trim(diff_stdout@)).len() == 0,
            Some(d) => {
                &&& text_lines(trim(diff_stdout@)).len() > 0
                &&& d.repo@ == spec.repo@
                &&& d.synced@ == spec.synced@
                &&& d.current@ == current@
                &&& d.changed@.map_values(|l: String| l@) == text_lines(trim(diff_stdout@))
                &&& d.error is None
                &&& drift_entry_wf(d)
            },
        },
{
    let out = git_output(diff_stdout);
    let changed = lines_of(out.as_str());
    if changed.len() == 0 {
        assert(changed@.map_values(|l: String| l@).len() == 0);
        return None;
    }
    assert(changed@.map_values(|l: String| l@).len() > 0);
    Some(
        SourceDrift {
            repo: spec.repo.clone(),
            synced: spec.synced.clone(),
            current: current.to_owned(),
            changed,
            error: None,
        },
    )
}

/// The entry for a source whose drift could not be determined.
pub fn undetermined_drift(spec: &SourceSpec, message: String) -> (d: SourceDrift)
    ensures
        d.repo@ == spec.repo@,
        d.synced@ == spec.synced@,
        d.current@.len() == 0,
        d.changed@.len() == 0,
        d.error == Some(message),
        drift_entry_wf(d),
{
    SourceDrift {
        repo: spec.repo.clone(),
        synced: spec.synced.clone(),
        current: String::new(),
        changed: Vec::new(),
        error: Some(message),
    }
}

/// The name a skill is reported under: the `skill` field, else the
/// directory's final component, else the directory as displayed.
pub fn skill_display_name(
    declared: Option<String>,
    dir_file_name: Option<String>,
    dir_display: String,
) -> (r: String)
    ensures
        r == match declared {
            Some(s) => s,
            None => match dir_file_name {
                Some(f) => f,
                None => dir_display,
            },
        },
{
    match declared {
        Some(s) => s,
        None => match dir_file_name {
            Some(f) => f,
            None => dir_display,
        },
    }
}

/// The name a skill directory is reported under: the `skill` field of its
/// provenance file, else the directory's final component, else the
/// directory as given.
pub fn skill_name_for_dir(declared: Option<String>, dir: &str) -> (r: String)
    ensures
        r@ == match declared {
            Some(s) => s@,
            None => match path_file_name(dir@) {
                Some(f) => f,
                None => dir@,
            },
        },
{
    let dir_name = file_name(dir);
    skill_display_name(declared, dir_name, dir.to_owned())
}

/// Whether some source in `drifts` has changed files.
pub open spec fn any_changed(drifts: Seq<SourceDrift>) -> bool {
    exists|i: int| 0 <= i < drifts.len() && (#[trigger] drifts[i]).changed@.len() > 0
}

/// A listed source is either changed (no error, some changed files) or
/// undetermined (an error, no changed files, no current commit).
pub open spec fn drift_entry_wf(d: SourceDrift) -> bool {
    ||| (d.error is None && d.changed@.len() > 0)
    ||| (d.error is Some && d.changed@.len() == 0 && d.current@.len() == 0)
}

/// Whether some listed source of the report has changed files.
pub open spec fn report_has_changes(r: DriftReport) -> bool {
    exists|i: int, j: int|
        0 <= i < r.skills@.len() && 0 <= j < r.skills@[i].sources@.len()
            && (#[trigger] r.skills@[i].sources@[j]).changed@.len() > 0
}

/// The invariant of a drift report: every listed skill has at least one
/// source, every listed source is changed or undetermined, and the report is
/// stale exactly when some listed source has changed files.
pub open spec fn report_wf(r: DriftReport) -> bool {
    &&& forall|i: int| 0 <= i < r.skills@.len() ==> (#[trigger] r.skills@[i]).sources@.len() > 0
    &&& forall|i: int, j: int|
        0 <= i < r.skills@.len() && 0 <= j < r.skills@[i].sources@.len() ==> drift_entry_wf(
            #[trigger] r.skills@[i].sources@[j],
        )
    &&& r.stale == report_has_changes(r)
}

/// A report with no skill, not stale.
pub fn empty_report() -> (r: DriftReport)
    ensures
        !r.stale,
        r.skills@.len() == 0,
        report_wf(r),
{
    DriftReport { stale: false, skills: Vec::new() }
}

/// Adds the sources of one skill to the report: the skill is listed when it
/// has at least one entry, and the report becomes stale when an entry has
/// changed files. Adding entries that are each changed or undetermined to a
/// report that holds [`report_wf`] keeps it.
pub fn record_skill(report: &mut DriftReport, name: String, dir: String, drifts: Vec<SourceDrift>)
    ensures
        report_wf(*old(report)) && (forall|j: int|
            0 <= j < drifts@.len() ==> drift_entry_wf(#[trigger] drifts@[j])) ==> report_wf(
            *final(report),
        ),
        final(report).stale == (old(report).stale || any_changed(drifts@)),
        drifts@.len() == 0 ==> final(report).skills@ == old(report).skills@,
        drifts@.len() > 0 ==> final(report).skills@ == old(report).skills@.push(
            (SkillDrift { skill: name, dir: dir, sources: drifts }),
        ),
{
    let mut i: usize = 0;
    let mut changed = false;
    while i < drifts.len()
        invariant
            i <= drifts.len(),
            changed == exists|j: int| 0 <= j < i && (#[trigger] drifts@[j]).changed@.len() > 0,
        decreases drifts.len() - i,
    {
        if drifts[i].changed.len() > 0 {
            changed = true;
        }
        i = i + 1;
    }
    if changed {
        report.stale = true;
    }
    let ghost old_report = *report;
    let ghost ds = drifts@;
    if drifts.len() > 0 {
        report.skills.push(SkillDrift { skill: name, dir, sources: drifts });
    }
    proof {
        let n = old_report.skills@.len();
        if ds.len() > 0 {
            assert(report.skills@[n as int].sources@ == ds);
            if any_changed(ds) {
                let j = choose|j: int| 0 <= j < ds.len() && (#[trigger] ds[j]).changed@.len() > 0;
                assert(report.skills@[n as int].sources@[j] == ds[j]);
                assert(report_has_changes(*report));
            }
            if report_has_changes(old_report) {
                let (i, j) = choose|i: int, j: int|
                    0 <= i < old_report.skills@.len() && 0 <= j < old_report.skills@[i].sources@.len()
                        && (#[trigger] old_report.skills@[i].sources@[j]).changed@.len() > 0;
                assert(report.skills@[i] == old_report.skills@[i]);
                assert(report_has_changes(*report));
            }
            if report_has_changes(*report) {
                let (i, j) = choose|i: int, j: int|
                    0 <= i < report.skills@.len() && 0 <= j < report.skills@[i].sources@.len()
                        && (#[trigger] report.skills@[i].sources@[j]).changed@.len() > 0;
                if i < n {
                    assert(report.skills@[i] == old_report.skills@[i]);
                    assert(old_report.skills@[i].sources@[j].changed@.len() > 0);
                } else {
                    assert(ds[j].changed@.len() > 0);
                }
            }
            if report_wf(old_report) && (forall|j: int|
                0 <= j < ds.len() ==> drift_entry_wf(#[trigger] ds[j])) {
                assert forall|i: int| 0 <= i < report.skills@.len() implies (
                #[trigger] report.skills@[i]).sources@.len() > 0 by {
                    if i < n {
                        assert(report.skills@[i] == old_report.skills@[i]);
                    }
                }
                assert forall|i: int, j: int|
                    0 <= i < report.skills@.len() && 0 <= j < report.skills@[i].sources@.len()
                        implies drift_entry_wf(#[trigger] report.skills@[i].sources@[j]) by {
                    if i < n {
                        assert(report.skills@[i] == old_report.skills@[i]);
                    } else {
                        assert(report.skills@[i].sources@[j] == ds[j]);
                    }
                }
            }
        } else {
            if report_has_changes(*report) {
                let (i, j) = choose|i: int, j: int|
                    0 <= i < report.skills@.len() && 0 <= j < report.skills@[i].sources@.len()
                        && (#[trigger] report.skills@[i].sources@[j]).changed@.len() > 0;
                assert(report.skills@[i] == old_report.skills@[i]);
            }
        }
    }
}

// ---------------------------------------------------------------------------
// The log summary
// ---------------------------------------------------------------------------

/// Severity of a log record.
#[derive(Debug, Clone, Copy, PartialEq, Eq)]
pub enum LogLevel {
    Info,
    Warn,
}

/// One record of the summary: a level, the skill and repository it is about,
/// and its message.
#[derive(Debug, Clone)]
pub struct LogRecord {
    pub level: LogLevel,
    pub skill: Option<String>,
    pub repo: Option<String>,
    pub message: String,
}

/// The value of a [`LogRecord`].
pub struct LogEntry {
    pub level: LogLevel,
    pub skill: Option<Seq<char>>,
    pub repo: Option<Seq<char>>,
    pub message: Seq<char>,
}

impl View for LogRecord {
    type V = LogEntry;

    open spec fn view(&self) -> LogEntry {
        LogEntry {
            level: self.level,
            skill: match self.skill {
                Some(s) => Some(s@),
                None => None,
            },
            repo: match self.repo {
                Some(s) => Some(s@),
                None => None,
            },
            message: self.message@,
        }
    }
}

/// The message of a report with nothing to say.
pub open spec fn in_sync_message() -> Seq<char> {
    "all skills are in sync with their upstream sources"@
}

/// The record for one source of one skill.
pub open spec fn source_entry(skill: SkillDrift, src: SourceDrift) -> LogEntry {
    match src.error {
        Some(err) => LogEntry {
            level: LogLevel::Warn,
            skill: Some(skill.skill@),
            repo: Some(src.repo@),
            message: "drift undetermined: "@ + err@,
        },
        None => LogEntry {
            level: LogLevel::Info,
            skill: Some(skill.skill@),
            repo: Some(src.repo@),
            message: "stale: "@ + short_of(src.synced@) + ".."@ + short_of(src.current@) + " touched "@
                + decimal(src.changed@.len()) + " file(s) under tracked paths"@,
        },
    }
}

/// The records for the sources of one skill.
pub open spec fn skill_entries(skill: SkillDrift) -> Seq<LogEntry> {
    skill.sources@.map_values(|src: SourceDrift| source_entry(skill, src))
}

/// The records for a list of skills, in order.
pub open spec fn skills_entries(skills: Seq<SkillDrift>) -> Seq<LogEntry>
    decreases skills.len(),
{
    if skills.len() == 0 {
        seq![]
    } else {
        skills_entries(skills.drop_last()) + skill_entries(skills.last())
    }
}

/// The records of the summary of a report.
pub open spec fn summary_entries(report: DriftReport) -> Seq<LogEntry> {
    if !report.stale && report.skills@.len() == 0 {
        seq![LogEntry { level: LogLevel::Info, skill: None, repo: None, message: in_sync_message() }]
    } else {
        skills_entries(report.skills@)
    }
}

/// The number of sources over a list of skills.
pub open spec fn source_count(skills: Seq<SkillDrift>) -> nat
    decreases skills.len(),
{
    if skills.len() == 0 {
        0
    } else {
        source_count(skills.drop_last()) + skills.last().sources@.len()
    }
}

/// The records for a list of skills are one per source, each about its
/// skill and repository; a source that could not be checked gives a warning
/// that carries its error.
proof fn lemma_skills_entries(skills: Seq<SkillDrift>)
    ensures
        skills_entries(skills).len() == source_count(skills),
        forall|k: int|
            0 <= k < skills_entries(skills).len() ==> (#[trigger] skills_entries(skills)[k]).skill
                is Some,
        forall|i: int, j: int|
            0 <= i < skills.len() && 0 <= j < skills[i].sources@.len() ==> skills_entries(
                skills,
            ).contains(source_entry(skills[i], #[trigger] skills[i].sources@[j])),
    decreases skills.len(),
{
    if skills.len() > 0 {
        let init = skills.drop_last();
        let last = skills.last();
        lemma_skills_entries(init);
        let all = skills_entries(skills);
        let a = skills_entries(init);
        let b = skill_entries(last);
        assert(all == a + b);
        assert forall|k: int| 0 <= k < all.len() implies (#[trigger] all[k]).skill is Some by {
            if k < a.len() {
                assert(all[k] == a[k]);
            } else {
                assert(all[k] == b[k - a.len()]);
            }
        }
        assert forall|i: int, j: int|
            0 <= i < skills.len() && 0 <= j < skills[i].sources@.len() implies all.contains(
            source_entry(skills[i], #[trigger] skills[i].sources@[j]),
        ) by {
            if i < init.len() {
                assert(init[i] == skills[i]);
                let k = choose|k: int| 0 <= k < a.len() && a[k] == source_entry(
                    init[i],
                    init[i].sources@[j],
                );
                assert(all[k] == a[k]);
            } else {
                assert(skills[i] == last);
                assert(b[j] == source_entry(last, last.sources@[j]));
                assert(all[a.len() + j] == b[j]);
            }
        }
    }
}

/// The summary of a report that lists a skill has no in-sync record: it
/// holds exactly one record per listed source, each naming its skill, and
/// every source whose drift could not be determined gives a warning
/// `drift undetermined: <error>` for its skill and repository. The in-sync
/// record stands alone, only for a report that is not stale and lists no
/// skill.
pub proof fn lemma_summary_reports_every_source(report: DriftReport)
    ensures
        report.skills@.len() > 0 ==> summary_entries(report).len() == source_count(report.skills@),
        report.skills@.len() > 0 ==> forall|k: int|
            0 <= k < summary_entries(report).len() ==> (#[trigger] summary_entries(report)[k]).skill
                is Some,
        forall|i: int, j: int|
            0 <= i < report.skills@.len() && 0 <= j < report.skills@[i].sources@.len()
                && (#[trigger] report.skills@[i].sources@[j]).error is Some ==> summary_entries(
                report,
            ).contains(
                LogEntry {
                    level: LogLevel::Warn,
                    skill: Some(report.skills@[i].skill@),
                    repo: Some(report.skills@[i].sources@[j].repo@),
                    message: "drift undetermined: "@ + report.skills@[i].sources@[j].error->0@,
                },
            ),
        (!report.stale && report.skills@.len() == 0) ==> summary_entries(report) == seq![
            LogEntry {
                level: LogLevel::Info,
                skill: None,
                repo: None,
                message: "all skills are in sync with their upstream sources"@,
            },
        ],
        (report.stale && report.skills@.len() == 0) ==> summary_entries(report).len() == 0,
{
    lemma_skills_entries(report.skills@);
    assert forall|i: int, j: int|
        0 <= i < report.skills@.len() && 0 <= j < report.skills@[i].sources@.len()
            && (#[trigger] report.skills@[i].sources@[j]).error is Some implies summary_entries(
        report,
    ).contains(
        LogEntry {
            level: LogLevel::Warn,
            skill: Some(report.skills@[i].skill@),
            repo: Some(report.skills@[i].sources@[j].repo@),
            message: "drift undetermined: "@ + report.skills@[i].sources@[j].error->0@,
        },
    ) by {
        assert(source_entry(report.skills@[i], report.skills@[i].sources@[j]) == LogEntry {
            level: LogLevel::Warn,
            skill: Some(report.skills@[i].skill@),
            repo: Some(report.skills@[i].sources@[j].repo@),
            message: "drift undetermined: "@ + report.skills@[i].sources@[j].error->0@,
        });
    }
    if report.stale && report.skills@.len() == 0 {
        assert(skills_entries(report.skills@) =~= Seq::<LogEntry>::empty());
    }
}

/// The record for one source of one skill, as code.
fn source_record(skill: &SkillDrift, src: &SourceDrift) -> (r: LogRecord)
    ensures
        r@ == source_entry(*skill, *src),
{
    match &src.error {
        Some(err) => LogRecord {
            level: LogLevel::Warn,
            skill: Some(skill.skill.clone()),
            repo: Some(src.repo.clone()),
            message: concat2("drift undetermined: ", err.as_str()),
        },
        None => {
            let mut m = String::new();
            push_all(&mut m, "stale: ");
            push_all(&mut m, short(src.synced.as_str()));
            push_all(&mut m, "..");
            push_all(&mut m, short(src.current.as_str()));
            push_all(&mut m, " touched ");
            let n = decimal_string(src.changed.len() as u64);
            push_all(&mut m, n.as_str());
            push_all(&mut m, " file(s) under tracked paths");
            assert(m@ =~= "stale: "@ + short_of(src.synced@) + ".."@ + short_of(src.current@)
                + " touched "@ + decimal(src.changed@.len()) + " file(s) under tracked paths"@);
            LogRecord {
                level: LogLevel::Info,
                skill: Some(skill.skill.clone()),
                repo: Some(src.repo.clone()),
                message: m,
            }
        },
    }
}

/// Renders a human-readable summary of the report, as log records: one per
/// source of each listed skill, or a single in-sync record when the report
/// is neither stale nor lists any skill.
pub fn log_summary(report: &DriftReport) -> (lines: Vec<LogRecord>)
    ensures
        lines@.map_values(|l: LogRecord| l@) == summary_entries(*report),
{
    let mut out: Vec<LogRecord> = Vec::new();
    if !report.stale && report.skills.len() == 0 {
        out.push(
            LogRecord {
                level: LogLevel::Info,
                skill: None,
                repo: None,
                message: "all skills are in sync with their upstream sources".to_owned(),
            },
        );
        assert(out@.map_values(|l: LogRecord| l@) =~= summary_entries(*report));
        return out;
    }
    let mut i: usize = 0;
    while i < report.skills.len()
        invariant
            i <= report.skills.len(),
            out@.map_values(|l: LogRecord| l@) == skills_entries(report.skills@.take(i as int)),
        decreases report.skills.len() - i,
    {
        let skill = &report.skills[i];
        let ghost before = out@.map_values(|l: LogRecord| l@);
        let mut j: usize = 0;
        while j < skill.sources.len()
            invariant
                i < report.skills.len(),
                skill == report.skills@[i as int],
                j <= skill.sources.len(),
                out@.map_values(|l: LogRecord| l@) == before + skill.sources@.take(
                    j as int,
                ).map_values(|src: SourceDrift| source_entry(*skill, src)),
            decreases skill.sources.len() - j,
        {
            let rec = source_record(skill, &skill.sources[j]);
            let ghost old_out = out@;
            out.push(rec);
            assert(out@.map_values(|l: LogRecord| l@) =~= old_out.map_values(|l: LogRecord| l@).push(
                rec@,
            ));
            assert(skill.sources@.take(j + 1).map_values(|src: SourceDrift| source_entry(*skill, src))
                =~= skill.sources@.take(j as int).map_values(
                |src: SourceDrift| source_entry(*skill, src),
            ).push(source_entry(*skill, skill.sources@[j as int])));
            assert(out@.map_values(|l: LogRecord| l@) =~= before + skill.sources@.take(
                j + 1,
            ).map_values(|src: SourceDrift| source_entry(*skill, src)));
            j = j + 1;
        }
        assert(skill.sources@.take(j as int) =~= skill.sources@);
        assert(report.skills@.take(i + 1).drop_last() =~= report.skills@.take(i as int));
        i = i + 1;
    }
    assert(report.skills@.take(report.skills.len() as int) =~= report.skills@);
    out
}

} // verus!
