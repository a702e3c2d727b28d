//! Deciding what an upload run does with each built artifact, given the
//! releases that already exist.
//!
//! For each artifact: when a release with its tag exists and already holds
//! its archive, skip it; when the release exists without the archive, upload
//! the archive to it (recovering an orphaned release); otherwise create the
//! release and upload the archive.

use vstd::prelude::*;

use crate::archiver::BuiltArtifact;
use crate::text::{push_all, str_eq, trim, trim_string};

verus! {

broadcast use vstd::string::group_string_axioms;

/// One existing release.
#[derive(Debug, Clone)]
pub struct ExistingRelease {
    /// The release's id.
    pub id: u64,
    /// The names of its assets.
    pub assets: Vec<String>,
}

/// Whether a release holds an asset of this name.
pub open spec fn has_asset(r: ExistingRelease, name: Seq<char>) -> bool {
    exists|i: int| 0 <= i < r.assets@.len() && (#[trigger] r.assets@[i])@ == name
}

/// The existing releases, by tag. Inserting a tag that is already present
/// replaces its release.
pub struct ReleaseIndex {
    entries: Vec<(String, ExistingRelease)>,
}

/// The map that a list of `(tag, release)` entries denotes; a later entry
/// for a tag takes precedence.
pub open spec fn entries_map(s: Seq<(String, ExistingRelease)>) -> Map<Seq<char>, ExistingRelease>
    decreases s.len(),
{
    if s.len() == 0 {
        Map::empty()
    } else {
        entries_map(s.drop_last()).insert(s.last().0@, s.last().1)
    }
}

/// No tag occurs twice.
pub open spec fn distinct_tags(s: Seq<(String, ExistingRelease)>) -> bool {
    forall|i: int, j: int| 0 <= i < j < s.len() ==> (#[trigger] s[i]).0@ != (#[trigger] s[j]).0@
}

proof fn lemma_entries_map_dom(s: Seq<(String, ExistingRelease)>, tag: Seq<char>)
    ensures
        entries_map(s).dom().contains(tag) <==> exists|i: int|
            0 <= i < s.len() && (#[trigger] s[i]).0@ == tag,
    decreases s.len(),
{
    if s.len() > 0 {
        lemma_entries_map_dom(s.drop_last(), tag);
        if entries_map(s).dom().contains(tag) && s.last().0@ != tag {
            let i = choose|i: int| 0 <= i < s.len() - 1 && (#[trigger] s.drop_last()[i]).0@ == tag;
            assert(s[i] == s.drop_last()[i]);
        }
        if exists|i: int| 0 <= i < s.len() && (#[trigger] s[i]).0@ == tag {
            let i = choose|i: int| 0 <= i < s.len() && (#[trigger] s[i]).0@ == tag;
            if i < s.len() - 1 {
                assert(s.drop_last()[i] == s[i]);
            }
        }
    }
}

proof fn lemma_entries_map_at(s: Seq<(String, ExistingRelease)>, i: int)
    requires
        distinct_tags(s),
        0 <= i < s.len(),
    ensures
        entries_map(s).dom().contains(s[i].0@),
        entries_map(s)[s[i].0@] == s[i].1,
    decreases s.len(),
{
    if i < s.len() - 1 {
        assert(s.drop_last()[i] == s[i]);
        assert forall|a: int, b: int| 0 <= a < b < s.drop_last().len() implies (
        #[trigger] s.drop_last()[a]).0@ != (#[trigger] s.drop_last()[b]).0@ by {
            assert(s.drop_last()[a] == s[a]);
            assert(s.drop_last()[b] == s[b]);
        }
        lemma_entries_map_at(s.drop_last(), i);
    }
}

proof fn lemma_entries_map_update(s: Seq<(String, ExistingRelease)>, i: int, e: (String, ExistingRelease))
    requires
        distinct_tags(s),
        0 <= i < s.len(),
        s[i].0@ == e.0@,
    ensures
        entries_map(s.update(i, e)) == entries_map(s).insert(e.0@, e.1),
    decreases s.len(),
{
    let t = s.update(i, e);
    if i == s.len() - 1 {
        assert(t.drop_last() =~= s.drop_last());
        assert(entries_map(t) =~= entries_map(s).insert(e.0@, e.1));
    } else {
        assert(t.drop_last() =~= s.drop_last().update(i, e));
        assert forall|a: int, b: int| 0 <= a < b < s.drop_last().len() implies (
        #[trigger] s.drop_last()[a]).0@ != (#[trigger] s.drop_last()[b]).0@ by {
            assert(s.drop_last()[a] == s[a]);
            assert(s.drop_last()[b] == s[b]);
        }
        lemma_entries_map_update(s.drop_last(), i, e);
        assert(s[i].0@ != s.last().0@);
        assert(entries_map(t) =~= entries_map(s).insert(e.0@, e.1));
    }
}

impl ReleaseIndex {
    #[verifier::type_invariant]
    spec fn tags_distinct(&self) -> bool {
        distinct_tags(self.entries@)
    }

    /// The index as a map from tag to release.
    pub closed spec fn view(&self) -> Map<Seq<char>, ExistingRelease> {
        entries_map(self.entries@)
    }

    /// An empty index.
    pub fn new() -> (r: ReleaseIndex)
        ensures
            r.view() == Map::<Seq<char>, ExistingRelease>::empty(),
    {
        ReleaseIndex { entries: Vec::new() }
    }

    /// The position of a tag among the entries.
    fn position(&self, tag: &str) -> (r: Option<usize>)
        ensures
            match r {
                Some(i) => i < self.entries@.len() && self.entries@[i as int].0@ == tag@,
                None => forall|i: int|
                    0 <= i < self.entries@.len() ==> (#[trigger] self.entries@[i]).0@ != tag@,
            },
    {
        let mut i: usize = 0;
        while i < self.entries.len()
            invariant
                i <= self.entries.len(),
                forall|j: int| 0 <= j < i ==> (#[trigger] self.entries@[j]).0@ != tag@,
            decreases self.entries.len() - i,
        {
            if str_eq(self.entries[i].0.as_str(), tag) {
                return Some(i);
            }
            i = i + 1;
        }
        None
    }

    /// Records a release under its tag, replacing any release with that tag.
    pub fn insert(&mut self, tag: String, release: ExistingRelease)
        ensures
            final(self).view() == old(self).view().insert(tag@, release),
    {
        proof {
            use_type_invariant(&*self);
        }
        match self.position(tag.as_str()) {
            Some(i) => {
                let ghost old_entries = self.entries@;
                let ghost e = (tag, release);
                proof {
                    lemma_entries_map_update(old_entries, i as int, e);
                    assert(distinct_tags(old_entries.update(i as int, e)));
                }
                let mut entries: Vec<(String, ExistingRelease)> = Vec::new();
                std::mem::swap(&mut entries, &mut self.entries);
                entries.set(i, (tag, release));
                assert(entries@ == old_entries.update(i as int, e));
                self.entries = entries;
            },
            None => {
                let ghost old_entries = self.entries@;
                let mut entries: Vec<(String, ExistingRelease)> = Vec::new();
                std::mem::swap(&mut entries, &mut self.entries);
                entries.push((tag, release));
                assert(entries@.drop_last() =~= old_entries);
                assert(distinct_tags(entries@));
                self.entries = entries;
            },
        }
    }

    /// The release with this tag, if any.
    pub fn get(&self, tag: &str) -> (r: Option<&ExistingRelease>)
        ensures
            match r {
                Some(rel) => self.view().dom().contains(tag@) && self.view()[tag@] == *rel,
                None => !self.view().dom().contains(tag@),
            },
    {
        proof {
            use_type_invariant(self);
        }
        match self.position(tag) {
            Some(i) => {
                proof {
                    lemma_entries_map_at(self.entries@, i as int);
                }
                Some(&self.entries[i].1)
            },
            None => {
                proof {
                    lemma_entries_map_dom(self.entries@, tag@);
                }
                None
            },
        }
    }

    /// The number of tags in the index.
    pub fn len(&self) -> (n: usize)
        ensures
            n == self.view().dom().len(),
    {
        proof {
            use_type_invariant(self);
            lemma_entries_map_len(self.entries@);
        }
        self.entries.len()
    }
}

proof fn lemma_entries_map_len(s: Seq<(String, ExistingRelease)>)
    requires
        distinct_tags(s),
    ensures
        entries_map(s).dom().finite(),
        entries_map(s).dom().len() == s.len(),
    decreases s.len(),
{
    if s.len() > 0 {
        let init = s.drop_last();
        assert forall|a: int, b: int| 0 <= a < b < init.len() implies (#[trigger] init[a]).0@ != (
        #[trigger] init[b]).0@ by {
            assert(init[a] == s[a]);
            assert(init[b] == s[b]);
        }
        lemma_entries_map_len(init);
        lemma_entries_map_dom(init, s.last().0@);
        if entries_map(init).dom().contains(s.last().0@) {
            let i = choose|i: int| 0 <= i < init.len() && (#[trigger] init[i]).0@ == s.last().0@;
            assert(init[i] == s[i]);
        }
    }
}

/// A release read back after it was recorded is that release, and recording
/// a tag leaves every other tag's release as it was: this holds of any index
/// `after` that `insert` produced from `before`.
pub proof fn lemma_recorded_release_reads_back(
    before: ReleaseIndex,
    after: ReleaseIndex,
    tag: Seq<char>,
    release: ExistingRelease,
)
    requires
        after.view() == before.view().insert(tag, release),
    ensures
        after.view().dom().contains(tag),
        after.view()[tag] == release,
        forall|other: Seq<char>|
            other != tag ==> (#[trigger] after.view().dom().contains(other)
                == before.view().dom().contains(other)),
        forall|other: Seq<char>|
            other != tag && before.view().dom().contains(other) ==> #[trigger] after.view()[other]
                == before.view()[other],
{
}

// ---------------------------------------------------------------------------
// Planning an upload run
// ---------------------------------------------------------------------------

/// What to do with one artifact.
#[derive(Debug, Clone, Copy, PartialEq, Eq)]
pub enum UploadAction {
    /// The release and its archive are already present.
    Skip,
    /// The release exists without the archive: upload it to the release with this id.
    UploadAsset(u64),
    /// No release has the tag: create it and upload the archive.
    CreateRelease,
}

/// The action for an artifact, given the releases by tag.
pub open spec fn action_for(index: Map<Seq<char>, ExistingRelease>, art: BuiltArtifact) -> UploadAction {
    if index.dom().contains(art.tag@) {
        let rel = index[art.tag@];
        if has_asset(rel, art.file_name@) {
            UploadAction::Skip
        } else {
            UploadAction::UploadAsset(rel.id)
        }
    } else {
        UploadAction::CreateRelease
    }
}

/// The number of actions of each kind, as `(created, asset uploads, skipped)`.
pub open spec fn action_counts(actions: Seq<UploadAction>) -> (nat, nat, nat)
    decreases actions.len(),
{
    if actions.len() == 0 {
        (0, 0, 0)
    } else {
        let (c, u, s) = action_counts(actions.drop_last());
        match actions.last() {
            UploadAction::CreateRelease => (c + 1, u, s),
            UploadAction::UploadAsset(_) => (c, u + 1, s),
            UploadAction::Skip => (c, u, s + 1),
        }
    }
}

/// The plan of an upload run: one action per artifact, and the counts.
pub struct UploadPlan {
    /// The action for each artifact, in order.
    pub actions: Vec<UploadAction>,
    /// Releases to create.
    pub created: usize,
    /// Archives to upload to existing releases.
    pub asset_uploads: usize,
    /// Artifacts already published.
    pub skipped: usize,
}

/// Whether a release holds an asset of this name.
fn release_has_asset(r: &ExistingRelease, name: &str) -> (b: bool)
    ensures
        b == has_asset(*r, name@),
{
    let mut i: usize = 0;
    while i < r.assets.len()
        invariant
            i <= r.assets.len(),
            forall|j: int| 0 <= j < i ==> (#[trigger] r.assets@[j])@ != name@,
        decreases r.assets.len() - i,
    {
        if str_eq(r.assets[i].as_str(), name) {
            return true;
        }
        i = i + 1;
    }
    false
}

/// The action for each artifact, and how many of each kind there are.
pub fn plan_uploads(index: &ReleaseIndex, artifacts: &Vec<BuiltArtifact>) -> (p: UploadPlan)
    ensures
        p.actions@.len() == artifacts@.len(),
        forall|i: int|
            0 <= i < artifacts@.len() ==> p.actions@[i] == action_for(
                index.view(),
                #[trigger] artifacts@[i],
            ),
        (p.created as nat, p.asset_uploads as nat, p.skipped as nat) == action_counts(p.actions@),
{
    let mut actions: Vec<UploadAction> = Vec::new();
    let mut created: usize = 0;
    let mut asset_uploads: usize = 0;
    let mut skipped: usize = 0;
    let mut i: usize = 0;
    while i < artifacts.len()
        invariant
            i <= artifacts.len(),
            actions@.len() == i,
            forall|j: int|
                0 <= j < i ==> actions@[j] == action_for(index.view(), #[trigger] artifacts@[j]),
            (created as nat, asset_uploads as nat, skipped as nat) == action_counts(actions@),
            created + asset_uploads + skipped == i,
        decreases artifacts.len() - i,
    {
        let art = &artifacts[i];
        let action = match index.get(art.tag.as_str()) {
            Some(rel) => if release_has_asset(rel, art.file_name.as_str()) {
                UploadAction::Skip
            } else {
                UploadAction::UploadAsset(rel.id)
            },
            None => UploadAction::CreateRelease,
        };
        let ghost old_actions = actions@;
        actions.push(action);
        assert(actions@.drop_last() =~= old_actions);
        match action {
            UploadAction::Skip => {
                skipped = skipped + 1;
            },
            UploadAction::UploadAsset(_) => {
                asset_uploads = asset_uploads + 1;
            },
            UploadAction::CreateRelease => {
                created = created + 1;
            },
        }
        i = i + 1;
    }
    UploadPlan { actions, created, asset_uploads, skipped }
}

/// Every artifact gets exactly one action: the counts add up to the number
/// of actions.
pub proof fn lemma_counts_add_up(actions: Seq<UploadAction>)
    ensures
        action_counts(actions).0 + action_counts(actions).1 + action_counts(actions).2
            == actions.len(),
    decreases actions.len(),
{
    if actions.len() > 0 {
        lemma_counts_add_up(actions.drop_last());
    }
}

/// A run with nothing to do: after every artifact's release and archive are
/// recorded in the index, a new plan skips every artifact.
pub proof fn lemma_published_is_skipped(index: Map<Seq<char>, ExistingRelease>, art: BuiltArtifact)
    requires
        index.dom().contains(art.tag@),
        has_asset(index[art.tag@], art.file_name@),
    ensures
        action_for(index, art) == UploadAction::Skip,
{
}

/// A second run has nothing to do: when the listed releases hold, for every
/// artifact, a release with its tag that holds its archive (as they do once a
/// run has published them all), every artifact is skipped and nothing is
/// created or uploaded.
pub proof fn lemma_republish_skips_all(index: Map<Seq<char>, ExistingRelease>, arts: Seq<BuiltArtifact>)
    requires
        forall|i: int|
            0 <= i < arts.len() ==> index.dom().contains((#[trigger] arts[i]).tag@) && has_asset(
                index[arts[i].tag@],
                arts[i].file_name@,
            ),
    ensures
        forall|i: int| 0 <= i < arts.len() ==> action_for(index, #[trigger] arts[i]) == UploadAction::Skip,
        action_counts(arts.map_values(|a: BuiltArtifact| action_for(index, a))) == (
            0nat,
            0nat,
            arts.len(),
        ),
    decreases arts.len(),
{
    if arts.len() > 0 {
        let init = arts.drop_last();
        assert forall|i: int| 0 <= i < init.len() implies index.dom().contains(
            (#[trigger] init[i]).tag@,
        ) && has_asset(index[init[i].tag@], init[i].file_name@) by {
            assert(init[i] == arts[i]);
        }
        lemma_republish_skips_all(index, init);
        let acts = arts.map_values(|a: BuiltArtifact| action_for(index, a));
        assert(acts.drop_last() =~= init.map_values(|a: BuiltArtifact| action_for(index, a)));
        assert(acts.last() == action_for(index, arts[arts.len() - 1]));
    } else {
        assert(arts.map_values(|a: BuiltArtifact| action_for(index, a)) =~= Seq::<UploadAction>::empty());
    }
}

/// The body of the release created for an artifact.
pub open spec fn release_body_text(name: Seq<char>, version: Seq<char>) -> Seq<char> {
    "Automated release of skill `"@ + name + "` version `"@ + version + "`."@
}

/// The body of the release created for an artifact.
pub fn release_body(art: &BuiltArtifact) -> (b: String)
    ensures
        b@ == release_body_text(art.name@, art.version@),
{
    let mut b = String::new();
    push_all(&mut b, "Automated release of skill `");
    push_all(&mut b, art.name.as_str());
    push_all(&mut b, "` version `");
    push_all(&mut b, art.version.as_str());
    push_all(&mut b, "`.");
    b
}

/// The token to authenticate with: the trimmed value, unless it is empty.
pub fn github_token(raw: &str) -> (t: Option<String>)
    ensures
        match t {
            Some(s) => s@ == trim(raw@) && s@.len() > 0,
            None => trim(raw@).len() == 0,
        },
{
    let s = trim_string(raw);
    if s.as_str().unicode_len() == 0 {
        None
    } else {
        Some(s)
    }
}

} // verus!
