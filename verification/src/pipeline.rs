//! The decisions of a scan, a build and an upload run, over the outcomes
//! that the caller's file-system and network work produced.
//!
//! A skill's `name` becomes its release tag, so two valid skills that share
//! a name (across the standalone and plugin channels) would overwrite each
//! other's archive: such collisions are errors, like parse failures and rule
//! violations. A run with any error never touches the dist directory.

use vstd::prelude::*;

use crate::archiver::{has_version, lemma_valid_skill_has_version, BuiltArtifact};
use crate::order::{sort_artifacts, sorted_by_file_name, stable_rearrangement};
use crate::skill::{ParseError, ParsedSkill};
use crate::validator::{validate, violations, ValidationReport, Violation};

verus! {

broadcast use vstd::string::group_string_axioms;

/// What a scan found.
pub struct ScanOutcome {
    /// The skills that parsed and met every rule, in scan order.
    pub valid: Vec<ParsedSkill>,
    /// The directories whose skill could not be parsed, with the error.
    pub parse_errors: Vec<(String, ParseError)>,
    /// The reports of the skills that broke a rule.
    pub reports: Vec<ValidationReport>,
    /// `(name, earlier dir, later dir)` for each valid skill whose name an
    /// earlier valid skill already had; the earlier dir is the latest such one.
    pub duplicates: Vec<(String, String, String)>,
    /// Whether there is any parse error, rule violation or name collision.
    pub had_errors: bool,
}

/// The outcome of a build run.
pub struct BuildOutcome {
    /// The archives built, sorted by file name.
    pub artifacts: Vec<BuiltArtifact>,
    /// Whether the scan found any error.
    pub had_errors: bool,
}

/// The valid skills among the outcomes, in order.
pub open spec fn valid_skills(os: Seq<(String, Result<ParsedSkill, ParseError>)>) -> Seq<ParsedSkill>
    decreases os.len(),
{
    if os.len() == 0 {
        seq![]
    } else {
        valid_skills(os.drop_last()) + match os.last().1 {
            Ok(s) => if violations(s).len() == 0 {
                seq![s]
            } else {
                seq![]
            },
            Err(_) => seq![],
        }
    }
}

/// The parse failures among the outcomes, in order; a directory without
/// `SKILL.md` is not a failure, it is skipped.
pub open spec fn parse_failures(os: Seq<(String, Result<ParsedSkill, ParseError>)>) -> Seq<
    (String, ParseError),
>
    decreases os.len(),
{
    if os.len() == 0 {
        seq![]
    } else {
        parse_failures(os.drop_last()) + match os.last().1 {
            Ok(_) => seq![],
            Err(ParseError::MissingSkillMd(_)) => seq![],
            Err(e) => seq![(os.last().0, e)],
        }
    }
}

/// `(dir_name, violations)` of the skills that parsed but broke a rule.
pub open spec fn failed_reports(os: Seq<(String, Result<ParsedSkill, ParseError>)>) -> Seq<
    (Seq<char>, Seq<Violation>),
>
    decreases os.len(),
{
    if os.len() == 0 {
        seq![]
    } else {
        failed_reports(os.drop_last()) + match os.last().1 {
            Ok(s) => if violations(s).len() == 0 {
                seq![]
            } else {
                seq![(s.dir_name@, violations(s))]
            },
            Err(_) => seq![],
        }
    }
}

/// The directory of the latest skill in `skills` with this name.
pub open spec fn latest_dir_named(skills: Seq<ParsedSkill>, name: Seq<char>) -> Option<Seq<char>>
    decreases skills.len(),
{
    if skills.len() == 0 {
        None
    } else if skills.last().frontmatter.name@ == name {
        Some(skills.last().dir_path@)
    } else {
        latest_dir_named(skills.drop_last(), name)
    }
}

/// The name collisions among `skills`, in order: each skill whose name an
/// earlier one had, with the latest earlier directory of that name.
pub open spec fn collisions(skills: Seq<ParsedSkill>) -> Seq<(Seq<char>, Seq<char>, Seq<char>)>
    decreases skills.len(),
{
    if skills.len() == 0 {
        seq![]
    } else {
        let s = skills.last();
        collisions(skills.drop_last()) + match latest_dir_named(
            skills.drop_last(),
            s.frontmatter.name@,
        ) {
            Some(prev) => seq![(s.frontmatter.name@, prev, s.dir_path@)],
            None => seq![],
        }
    }
}

/// The value of a collision entry.
pub open spec fn collision_view(d: (String, String, String)) -> (Seq<char>, Seq<char>, Seq<char>) {
    (d.0@, d.1@, d.2@)
}

/// The value of a report entry.
pub open spec fn report_view(r: ValidationReport) -> (Seq<char>, Seq<Violation>) {
    (r.dir_name@, r.violations())
}

/// The position of the latest skill before position `k` that has the name of
/// the skill at `k`.
fn latest_dir(valid: &Vec<ParsedSkill>, k: usize) -> (r: Option<usize>)
    requires
        k < valid.len(),
    ensures
        match r {
            Some(j) => j < k && latest_dir_named(
                valid@.take(k as int),
                valid@[k as int].frontmatter.name@,
            ) == Some(valid@[j as int].dir_path@),
            None => latest_dir_named(valid@.take(k as int), valid@[k as int].frontmatter.name@)
                is None,
        },
{
    let ghost name = valid@[k as int].frontmatter.name@;
    let mut j = k;
    while j > 0
        invariant
            j <= k < valid.len(),
            name == valid@[k as int].frontmatter.name@,
            latest_dir_named(valid@.take(k as int), name) == latest_dir_named(
                valid@.take(j as int),
                name,
            ),
        decreases j,
    {
        assert(valid@.take(j as int).drop_last() =~= valid@.take(j - 1));
        if valid[j - 1].frontmatter.name == valid[k].frontmatter.name {
            return Some(j - 1);
        }
        j = j - 1;
    }
    None
}

/// Sorts the outcome of parsing each scanned directory into valid skills,
/// parse failures and failed reports, finds name collisions among the valid
/// skills, and says whether the scan had any error.
pub fn validate_all(outcomes: Vec<(String, Result<ParsedSkill, ParseError>)>) -> (r: ScanOutcome)
    ensures
        r.valid@ == valid_skills(outcomes@),
        r.parse_errors@ == parse_failures(outcomes@),
        r.reports@.map_values(|x: ValidationReport| report_view(x)) == failed_reports(outcomes@),
        r.duplicates@.map_values(|d: (String, String, String)| collision_view(d)) == collisions(
            r.valid@,
        ),
        r.had_errors == (r.parse_errors@.len() > 0 || r.reports@.len() > 0
            || r.duplicates@.len() > 0),
{
    let mut rest = outcomes;
    let n = rest.len();
    let ghost orig = rest@;
    let mut valid: Vec<ParsedSkill> = Vec::new();
    let mut parse_errors: Vec<(String, ParseError)> = Vec::new();
    let mut reports: Vec<ValidationReport> = Vec::new();
    let mut k: usize = 0;
    assert(orig.skip(0) =~= orig);
    assert(orig.take(0) =~= Seq::<(String, Result<ParsedSkill, ParseError>)>::empty());
    while rest.len() > 0
        invariant
            orig.len() == n,
            k <= n,
            rest@ == orig.skip(k as int),
            valid@ == valid_skills(orig.take(k as int)),
            parse_errors@ == parse_failures(orig.take(k as int)),
            reports@.map_values(|x: ValidationReport| report_view(x)) == failed_reports(
                orig.take(k as int),
            ),
        decreases rest.len(),
    {
        let (dir, result) = rest.remove(0);
        proof {
            assert(orig.skip(k as int)[0] == orig[k as int]);
            assert(orig.skip(k as int).remove(0) =~= orig.skip(k + 1));
            assert(orig.take(k + 1).drop_last() =~= orig.take(k as int));
            assert(orig.take(k + 1).last() == orig[k as int]);
        }
        let ghost old_reports = reports@;
        match result {
            Ok(parsed) => {
                let report = validate(&parsed);
                assert(report.violations().len() == report.errors@.len());
                if report.is_ok() {
                    valid.push(parsed);
                } else {
                    reports.push(report);
                    assert(reports@.map_values(|x: ValidationReport| report_view(x))
                        =~= old_reports.map_values(|x: ValidationReport| report_view(x)).push(
                        report_view(report),
                    ));
                }
            },
            Err(e) => {
                match e {
                    ParseError::MissingSkillMd(_) => {},
                    _ => {
                        parse_errors.push((dir, e));
                    },
                }
            },
        }
        k = k + 1;
    }
    assert(orig.take(k as int) =~= orig);

    let mut duplicates: Vec<(String, String, String)> = Vec::new();
    let mut i: usize = 0;
    assert(valid@.take(0) =~= Seq::<ParsedSkill>::empty());
    while i < valid.len()
        invariant
            i <= valid.len(),
            duplicates@.map_values(|d: (String, String, String)| collision_view(d)) == collisions(
                valid@.take(i as int),
            ),
        decreases valid.len() - i,
    {
        let ghost old_dups = duplicates@;
        proof {
            assert(valid@.take(i + 1).drop_last() =~= valid@.take(i as int));
            assert(valid@.take(i + 1).last() == valid@[i as int]);
        }
        match latest_dir(&valid, i) {
            Some(j) => {
                duplicates.push(
                    (
                        valid[i].frontmatter.name.clone(),
                        valid[j].dir_path.clone(),
                        valid[i].dir_path.clone(),
                    ),
                );
                assert(duplicates@.map_values(|d: (String, String, String)| collision_view(d))
                    =~= old_dups.map_values(|d: (String, String, String)| collision_view(d)).push(
                    (valid@[i as int].frontmatter.name@, valid@[j as int].dir_path@, valid@[i as int].dir_path@),
                ));
            },
            None => {},
        }
        i = i + 1;
    }
    assert(valid@.take(valid.len() as int) =~= valid@);
    let had_errors = parse_errors.len() > 0 || reports.len() > 0 || duplicates.len() > 0;
    ScanOutcome { valid, parse_errors, reports, duplicates, had_errors }
}

// ---------------------------------------------------------------------------
// Laws of the scan
// ---------------------------------------------------------------------------

/// No skill in `skills` has this name exactly when no latest directory of
/// that name exists.
pub proof fn lemma_latest_dir_none(skills: Seq<ParsedSkill>, name: Seq<char>)
    ensures
        latest_dir_named(skills, name) is None <==> forall|i: int|
            0 <= i < skills.len() ==> (#[trigger] skills[i]).frontmatter.name@ != name,
    decreases skills.len(),
{
    if skills.len() > 0 {
        lemma_latest_dir_none(skills.drop_last(), name);
        if latest_dir_named(skills, name) is None {
            assert forall|i: int| 0 <= i < skills.len() implies (
            #[trigger] skills[i]).frontmatter.name@ != name by {
                if i < skills.len() - 1 {
                    assert(skills.drop_last()[i] == skills[i]);
                }
            }
        } else {
            if skills.last().frontmatter.name@ != name {
                let i = choose|i: int|
                    0 <= i < skills.len() - 1 && (#[trigger] skills.drop_last()[i]).frontmatter.name@
                        == name;
                assert(skills[i] == skills.drop_last()[i]);
            }
        }
    }
}

/// A scan reports no name collision exactly when the names of its valid
/// skills are pairwise distinct.
pub proof fn lemma_no_collisions_iff_distinct(skills: Seq<ParsedSkill>)
    ensures
        collisions(skills).len() == 0 <==> forall|i: int, j: int|
            0 <= i < j < skills.len() ==> (#[trigger] skills[i]).frontmatter.name@ != (
            #[trigger] skills[j]).frontmatter.name@,
    decreases skills.len(),
{
    if skills.len() > 0 {
        let init = skills.drop_last();
        let s = skills.last();
        lemma_no_collisions_iff_distinct(init);
        lemma_latest_dir_none(init, s.frontmatter.name@);
        if collisions(skills).len() == 0 {
            assert forall|i: int, j: int| 0 <= i < j < skills.len() implies (
            #[trigger] skills[i]).frontmatter.name@ != (#[trigger] skills[j]).frontmatter.name@ by {
                if j < skills.len() - 1 {
                    assert(init[i] == skills[i]);
                    assert(init[j] == skills[j]);
                } else {
                    assert(init[i] == skills[i]);
                }
            }
        } else {
            if collisions(init).len() == 0 {
                let i = choose|i: int|
                    0 <= i < init.len() && (#[trigger] init[i]).frontmatter.name@
                        == s.frontmatter.name@;
                assert(skills[i] == init[i]);
                assert(skills[skills.len() - 1] == s);
            } else {
                let (i, j) = choose|i: int, j: int|
                    0 <= i < j < init.len() && (#[trigger] init[i]).frontmatter.name@ == (
                    #[trigger] init[j]).frontmatter.name@;
                assert(skills[i] == init[i]);
                assert(skills[j] == init[j]);
            }
        }
    }
}

/// Every outcome that failed to parse for a reason other than a missing
/// `SKILL.md` is recorded as a parse failure with its directory, so the scan
/// has errors.
pub proof fn lemma_parse_failure_recorded(os: Seq<(String, Result<ParsedSkill, ParseError>)>, i: int)
    requires
        0 <= i < os.len(),
        os[i].1 is Err,
        !(os[i].1->Err_0 is MissingSkillMd),
    ensures
        parse_failures(os).len() > 0,
        parse_failures(os).contains((os[i].0, os[i].1->Err_0)),
    decreases os.len(),
{
    let init = os.drop_last();
    let pf = parse_failures(os);
    if i == os.len() - 1 {
        assert(pf[pf.len() - 1] == (os[i].0, os[i].1->Err_0));
    } else {
        assert(init[i] == os[i]);
        lemma_parse_failure_recorded(init, i);
        let j = choose|j: int|
            0 <= j < parse_failures(init).len() && parse_failures(init)[j] == (
            os[i].0,
            os[i].1->Err_0,
        );
        assert(pf[j] == parse_failures(init)[j]);
    }
}

/// Each recorded parse failure is an outcome that failed to parse for a
/// reason other than a missing `SKILL.md`, with that outcome's directory and
/// error; and there are as many as such outcomes.
pub proof fn lemma_parse_failures_are_failed_outcomes(os: Seq<(String, Result<ParsedSkill, ParseError>)>)
    ensures
        forall|j: int|
            0 <= j < parse_failures(os).len() ==> exists|i: int|
                0 <= i < os.len() && os[i].1 is Err && !(os[i].1->Err_0 is MissingSkillMd)
                    && #[trigger] parse_failures(os)[j] == (os[i].0, os[i].1->Err_0),
        parse_failures(os).len() == os.filter(
            |o: (String, Result<ParsedSkill, ParseError>)| o.1 is Err && !(o.1->Err_0 is MissingSkillMd),
        ).len(),
    decreases os.len(),
{
    reveal(Seq::filter);
    if os.len() > 0 {
        let init = os.drop_last();
        lemma_parse_failures_are_failed_outcomes(init);
        let pf = parse_failures(os);
        assert forall|j: int| 0 <= j < pf.len() implies exists|i: int|
            0 <= i < os.len() && os[i].1 is Err && !(os[i].1->Err_0 is MissingSkillMd)
                && #[trigger] pf[j] == (os[i].0, os[i].1->Err_0) by {
            if j < parse_failures(init).len() {
                assert(pf[j] == parse_failures(init)[j]);
                let i = choose|i: int|
                    0 <= i < init.len() && init[i].1 is Err && !(init[i].1->Err_0 is MissingSkillMd)
                        && #[trigger] parse_failures(init)[j] == (init[i].0, init[i].1->Err_0);
                assert(os[i] == init[i]);
            } else {
                let i = os.len() - 1;
                assert(pf[j] == (os[i].0, os[i].1->Err_0));
            }
        }
    }
}

/// Every skill a scan accepts meets every rule, and every report a scan
/// keeps holds at least one violation.
pub proof fn lemma_scan_partition(os: Seq<(String, Result<ParsedSkill, ParseError>)>)
    ensures
        forall|i: int|
            0 <= i < valid_skills(os).len() ==> violations(#[trigger] valid_skills(os)[i]).len()
                == 0,
        forall|i: int| 0 <= i < failed_reports(os).len() ==> (#[trigger] failed_reports(os)[i]).1.len() > 0,
    decreases os.len(),
{
    if os.len() > 0 {
        lemma_scan_partition(os.drop_last());
        let init = os.drop_last();
        assert forall|i: int| 0 <= i < valid_skills(os).len() implies violations(
            #[trigger] valid_skills(os)[i],
        ).len() == 0 by {
            if i < valid_skills(init).len() {
                assert(valid_skills(os)[i] == valid_skills(init)[i]);
            }
        }
        assert forall|i: int| 0 <= i < failed_reports(os).len() implies (
        #[trigger] failed_reports(os)[i]).1.len() > 0 by {
            if i < failed_reports(init).len() {
                assert(failed_reports(os)[i] == failed_reports(init)[i]);
            }
        }
    }
}

/// Every skill a scan accepts has a version, so archiving it never fails
/// for want of one.
pub proof fn lemma_accepted_skills_have_versions(os: Seq<(String, Result<ParsedSkill, ParseError>)>)
    ensures
        forall|i: int| 0 <= i < valid_skills(os).len() ==> has_version(#[trigger] valid_skills(os)[i]),
{
    lemma_scan_partition(os);
    assert forall|i: int| 0 <= i < valid_skills(os).len() implies has_version(
        #[trigger] valid_skills(os)[i],
    ) by {
        lemma_valid_skill_has_version(valid_skills(os)[i]);
    }
}

// ---------------------------------------------------------------------------
// Build decisions
// ---------------------------------------------------------------------------

/// What a build run does after its scan.
#[derive(Debug, Clone, Copy, PartialEq, Eq)]
pub enum BuildStep {
    /// The scan had errors: build nothing and leave `dist/` untouched.
    Abort,
    /// No valid skill: build nothing and leave `dist/` untouched.
    NothingToBuild,
    /// Clean `dist/` and archive every valid skill.
    Archive,
}

/// The step a build takes after its scan.
pub fn build_step(scan: &ScanOutcome) -> (s: BuildStep)
    ensures
        scan.had_errors ==> s == BuildStep::Abort,
        !scan.had_errors && scan.valid@.len() == 0 ==> s == BuildStep::NothingToBuild,
        !scan.had_errors && scan.valid@.len() > 0 ==> s == BuildStep::Archive,
{
    if scan.had_errors {
        BuildStep::Abort
    } else if scan.valid.len() == 0 {
        BuildStep::NothingToBuild
    } else {
        BuildStep::Archive
    }
}

/// Why a build failed: the first failure reported, and how many there were.
#[derive(Debug, Clone)]
pub struct BuildFailure {
    /// The first failure, as reported.
    pub first: String,
    /// How many archive tasks failed.
    pub failures: usize,
}

/// The number of failures in a list of results.
pub open spec fn failure_count(rs: Seq<Result<BuiltArtifact, String>>) -> nat
    decreases rs.len(),
{
    if rs.len() == 0 {
        0
    } else {
        failure_count(rs.drop_last()) + if rs.last() is Err {
            1nat
        } else {
            0nat
        }
    }
}

/// The artifacts among a list of results.
pub open spec fn successes(rs: Seq<Result<BuiltArtifact, String>>) -> Seq<BuiltArtifact>
    decreases rs.len(),
{
    if rs.len() == 0 {
        seq![]
    } else {
        successes(rs.drop_last()) + match rs.last() {
            Ok(a) => seq![a],
            Err(_) => seq![],
        }
    }
}

/// The first failure among a list of results.
pub open spec fn first_failure(rs: Seq<Result<BuiltArtifact, String>>) -> Option<String>
    decreases rs.len(),
{
    if rs.len() == 0 {
        None
    } else {
        match first_failure(rs.drop_last()) {
            Some(e) => Some(e),
            None => match rs.last() {
                Err(e) => Some(e),
                Ok(_) => None,
            },
        }
    }
}

/// Gathers the results of the archive tasks: when every task succeeded, the
/// artifacts sorted by file name; else the first failure and the count.
pub fn collect_artifacts(results: Vec<Result<BuiltArtifact, String>>) -> (r: Result<
    Vec<BuiltArtifact>,
    BuildFailure,
>)
    ensures
        failure_count(results@) == 0 ==> r is Ok && r->Ok_0@.to_multiset() == successes(
            results@,
        ).to_multiset() && sorted_by_file_name(r->Ok_0@) && exists|perm: Seq<int>|
            stable_rearrangement(r->Ok_0@, successes(results@), perm),
        failure_count(results@) > 0 ==> r is Err && Some(r->Err_0.first) == first_failure(results@)
            && r->Err_0.failures == failure_count(results@),
{
    let mut rest = results;
    let n = rest.len();
    let ghost orig = rest@;
    let mut artifacts: Vec<BuiltArtifact> = Vec::new();
    let mut first: Option<String> = None;
    let mut failures: usize = 0;
    let mut k: usize = 0;
    assert(orig.skip(0) =~= orig);
    assert(orig.take(0) =~= Seq::<Result<BuiltArtifact, String>>::empty());
    while rest.len() > 0
        invariant
            orig.len() == n,
            k <= n,
            rest@ == orig.skip(k as int),
            artifacts@ == successes(orig.take(k as int)),
            first == first_failure(orig.take(k as int)),
            failures == failure_count(orig.take(k as int)),
            failures <= k,
            (first is None) == (failures == 0),
        decreases rest.len(),
    {
        let item = rest.remove(0);
        proof {
            assert(orig.skip(k as int)[0] == orig[k as int]);
            assert(orig.skip(k as int).remove(0) =~= orig.skip(k + 1));
            assert(orig.take(k + 1).drop_last() =~= orig.take(k as int));
            assert(orig.take(k + 1).last() == orig[k as int]);
        }
        match item {
            Ok(a) => {
                artifacts.push(a);
            },
            Err(e) => {
                if first.is_none() {
                    first = Some(e);
                }
                failures = failures + 1;
            },
        }
        k = k + 1;
    }
    assert(orig.take(k as int) =~= orig);
    match first {
        Some(e) => Err(BuildFailure { first: e, failures }),
        None => Ok(sort_artifacts(artifacts)),
    }
}

} // verus!
