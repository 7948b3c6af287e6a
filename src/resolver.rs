//! Classifying a project's release state from what its history and tracked
//! files show.

use vstd::prelude::*;
use crate::version::{Version, VersionError, Dialect, parse, parse_spec, increment, increment_spec, compare_full};
use crate::tags::{last_version_in_tags, version_in_tag};
use core::cmp::Ordering;

verus! {

/// One revision met while walking the left-hand ancestry back from the tip.
#[derive(Clone, Copy, Debug, PartialEq, Eq, Structural)]
pub enum AncestryStep {
    /// A revision, with its commit time in seconds since the epoch.
    Revision { timestamp: i64 },
    /// The walk ran past the first revision without meeting the stop point.
    Root,
}

/// How far the branch tip has moved since the last release's tag.
#[derive(Clone, Copy, Debug, PartialEq, Eq, Structural)]
pub enum ReleaseDistance {
    /// The tag of the last release does not exist.
    TagNotFound,
    /// The tag points at the tip: there are no revisions since.
    AtTip,
    /// The tagged revision is not in the tip's left-hand ancestry.
    NotInAncestry,
    /// `revisions` revisions since the tag; the oldest is `first_age_days` old.
    Since { revisions: usize, first_age_days: i64 },
}

/// A project's release state.
#[derive(Clone, Debug)]
pub enum ReleaseStatus {
    /// The last release is tagged and no next version is declared.
    Released,
    /// A next version is declared in the tracked files and not yet tagged.
    Unreleased(Version),
    /// A next version is declared but is not a valid version.
    OddPending(String),
    /// The last release's tag is the tip: there is nothing to release.
    NoPendingChanges,
    /// No version information was found.
    Unknown,
}

/// What became of one project of a batch.
#[derive(Clone, Copy, Debug, PartialEq, Eq, Structural)]
pub enum ProjectOutcome {
    /// The project could not be opened or read.
    Failed,
    /// The project was processed and gave this status code.
    Finished(i32),
}

/// Whole days from `from` to `to`, rounded toward zero.
pub open spec fn days_between(from: int, to: int) -> int {
    if to - from >= 0 {
        (to - from) / 86400
    } else {
        -((from - to) / 86400)
    }
}

/// The distance from the last release to the tip.
pub open spec fn distance_spec(tag_found: bool, tag_is_tip: bool, walked: Seq<AncestryStep>, now: int) -> ReleaseDistance {
    if !tag_found {
        ReleaseDistance::TagNotFound
    } else if tag_is_tip {
        ReleaseDistance::AtTip
    } else if walked.len() == 0 || walked.last() is Root {
        ReleaseDistance::NotInAncestry
    } else {
        ReleaseDistance::Since {
            revisions: walked.len() as usize,
            first_age_days: days_between(walked.last()->timestamp as int, now) as i64,
        }
    }
}

/// Whole days from `from` to `to`, rounded toward zero.
pub fn age_in_days(from: i64, to: i64) -> (r: i64)
    ensures
        r == days_between(from as int, to as int),
{
    let diff: i128 = to as i128 - from as i128;
    let days: i128 = if diff >= 0 {
        diff / 86400
    } else {
        -((-diff) / 86400)
    };
    days as i64
}

/// How far the tip has moved since the last release. `walked` is the
/// left-hand ancestry from the tip back to the tagged revision, without it,
/// ending in `Root` where the walk did not meet it.
pub fn release_distance(tag_found: bool, tag_is_tip: bool, walked: &Vec<AncestryStep>, now: i64) -> (r: ReleaseDistance)
    ensures
        r == distance_spec(tag_found, tag_is_tip, walked@, now as int),
{
    if !tag_found {
        ReleaseDistance::TagNotFound
    } else if tag_is_tip {
        ReleaseDistance::AtTip
    } else if walked.len() == 0 {
        ReleaseDistance::NotInAncestry
    } else {
        match walked[walked.len() - 1] {
            AncestryStep::Root => ReleaseDistance::NotInAncestry,
            AncestryStep::Revision { timestamp } => ReleaseDistance::Since {
                revisions: walked.len(),
                first_age_days: age_in_days(timestamp, now),
            },
        }
    }
}

/// The status that the last version, the distance to the tip and the
/// declared next version (if any) give.
pub open spec fn status_matches(
    last_known: bool,
    distance: ReleaseDistance,
    pending: Option<Seq<char>>,
    r: ReleaseStatus,
) -> bool {
    if !last_known {
        r is Unknown
    } else if distance is AtTip {
        r is NoPendingChanges
    } else {
        match pending {
            None => r is Released,
            Some(raw) => match parse_spec(raw, Dialect::Manifest) {
                Some(c) => r matches ReleaseStatus::Unreleased(v) && v.full() == c,
                None => r matches ReleaseStatus::OddPending(s) && s@ == raw,
            },
        }
    }
}

/// Classifies a project from its last released version (if one was found),
/// the distance from that release to the tip, and the next version declared
/// in its tracked files (if any).
pub fn resolve_status(last_version: &Option<Version>, distance: &ReleaseDistance, pending: &Option<String>) -> (r: ReleaseStatus)
    ensures
        status_matches(last_version is Some, *distance, match pending { Some(s) => Some(s@), None => None }, r),
{
    if last_version.is_none() {
        return ReleaseStatus::Unknown;
    }
    if let ReleaseDistance::AtTip = distance {
        return ReleaseStatus::NoPendingChanges;
    }
    match pending {
        None => ReleaseStatus::Released,
        Some(raw) => match parse(raw.as_str(), Dialect::Manifest) {
            Ok(v) => ReleaseStatus::Unreleased(v),
            Err(_) => ReleaseStatus::OddPending(raw.clone()),
        },
    }
}

/// The last released version: the one found in the project's files, else
/// the highest one named by a tag under the template.
pub fn last_version(found: Option<Version>, template: &Option<String>, tags: &Vec<String>) -> (r: Option<Version>)
    ensures
        found matches Some(f) ==> (r matches Some(v) && v.full() == f.full()),
        found is None && template is None ==> r is None,
        found is None && template is Some ==> (r is None <==> forall|i: int|
            0 <= i < tags@.len() ==> version_in_tag(template->0@, (#[trigger] tags@[i])@) is None),
        found is None && template is Some && r is Some ==> exists|i: int|
            0 <= i < tags@.len() && version_in_tag(template->0@, (#[trigger] tags@[i])@) == Some(r->0.full()),
        found is None && template is Some && r is Some ==> forall|i: int|
            0 <= i < tags@.len() && (#[trigger] version_in_tag(template->0@, tags@[i]@)) is Some
            ==> compare_full(version_in_tag(template->0@, tags@[i]@)->0, r->0.full()) != Ordering::Greater,
{
    match found {
        Some(v) => Some(v),
        None => match template {
            None => None,
            Some(t) => last_version_in_tags(t.as_str(), tags),
        },
    }
}

/// The version before `last`, estimated by taking one from its last
/// component; for display only, never for tagging.
pub fn previous_version_estimate(last: &Version) -> (r: Result<Version, VersionError>)
    ensures
        last@.len() == 0 ==> r == Err::<Version, VersionError>(VersionError::Malformed),
        last@.len() > 0 && last@.last() == 0 ==> r == Err::<Version, VersionError>(VersionError::NoPriorVersion),
        last@.len() > 0 && last@.last() > 0 ==> (r matches Ok(v)
            && v@ == increment_spec(last@, last@.len() - 1, -1)),
{
    let n = last.components.len();
    if n == 0 {
        return Err(VersionError::Malformed);
    }
    increment(last, n - 1, -1)
}

/// The version that a release should tag: only a declared, valid next
/// version is acted upon.
pub fn release_target(status: &ReleaseStatus) -> (r: Option<Version>)
    ensures
        status matches ReleaseStatus::Unreleased(v) ==> (r matches Some(w) && w.full() == v.full()),
        !(status is Unreleased) ==> r is None,
{
    match status {
        ReleaseStatus::Unreleased(v) => {
            let pre = match &v.pre {
                Some(p) => Some(p.clone()),
                None => None,
            };
            Some(Version { components: v.components.clone(), pre })
        },
        _ => None,
    }
}

/// The status code that an information query reports for a project.
pub open spec fn status_code(s: ReleaseStatus) -> i32 {
    match s {
        ReleaseStatus::OddPending(_) => 1,
        ReleaseStatus::Unknown => 1,
        _ => 0,
    }
}

/// The status code that an information query reports for a project:
/// non-zero where its state needs attention.
pub fn info_status_code(status: &ReleaseStatus) -> (r: i32)
    ensures
        r == status_code(*status),
{
    match status {
        ReleaseStatus::OddPending(_) => 1,
        ReleaseStatus::Unknown => 1,
        _ => 0,
    }
}

pub open spec fn outcome_code(o: ProjectOutcome) -> i32 {
    match o {
        ProjectOutcome::Failed => 1,
        ProjectOutcome::Finished(c) => c,
    }
}

/// The sum of the codes of the first `n` outcomes.
pub open spec fn batch_total(outcomes: Seq<ProjectOutcome>, n: int) -> int
    decreases n,
{
    if n <= 0 {
        0
    } else {
        batch_total(outcomes, n - 1) + outcome_code(outcomes[n - 1]) as int
    }
}

/// The per-project codes of a batch, each from its own project's outcome
/// alone, and the batch's exit code: their sum.
pub fn summarize_batch(outcomes: &Vec<ProjectOutcome>) -> (r: (Vec<i32>, i64))
    requires
        outcomes@.len() <= i32::MAX,
    ensures
        r.0@.len() == outcomes@.len(),
        forall|k: int| 0 <= k < outcomes@.len() ==> r.0@[k] == outcome_code(#[trigger] outcomes@[k]),
        r.1 == batch_total(outcomes@, outcomes@.len() as int),
{
    let mut codes: Vec<i32> = Vec::new();
    let mut total: i64 = 0;
    let mut i: usize = 0;
    while i < outcomes.len()
        invariant
            i <= outcomes@.len(),
            outcomes@.len() <= i32::MAX,
            codes@.len() == i,
            forall|k: int| 0 <= k < i ==> codes@[k] == outcome_code(#[trigger] outcomes@[k]),
            total == batch_total(outcomes@, i as int),
            -(i as int) * 0x8000_0000 <= total <= (i as int) * 0x8000_0000,
        decreases outcomes.len() - i,
    {
        let c = match outcomes[i] {
            ProjectOutcome::Failed => 1,
            ProjectOutcome::Finished(c) => c,
        };
        assert(-(i as int) * 0x8000_0000 - 0x8000_0000 <= total + c <= (i as int) * 0x8000_0000 + 0x8000_0000);
        total = total + c as i64;
        codes.push(c);
        i = i + 1;
        assert((i as int) * 0x8000_0000 == (i - 1) * 0x8000_0000 + 0x8000_0000) by (nonlinear_arith);
    }
    (codes, total)
}

/// Law: in a batch, a project's reported code depends on its own outcome
/// only, so a project that fails leaves the others' results as they would
/// be without it.
pub proof fn lemma_batch_independent(a: Seq<ProjectOutcome>, b: Seq<ProjectOutcome>, k: int, codes_a: Seq<i32>, codes_b: Seq<i32>)
    requires
        a.len() == b.len(),
        0 <= k < a.len(),
        a[k] == b[k],
        codes_a.len() == a.len() && forall|j: int| 0 <= j < a.len() ==> codes_a[j] == outcome_code(#[trigger] a[j]),
        codes_b.len() == b.len() && forall|j: int| 0 <= j < b.len() ==> codes_b[j] == outcome_code(#[trigger] b[j]),
    ensures
        codes_a[k] == codes_b[k],
{
}

/// Law: a project whose last release's tag is the tip has no pending
/// changes, and a walk that meets the tag after `n` revisions reports `n`
/// revisions and the age of the oldest of them.
pub proof fn lemma_distance_counts(tag_is_tip: bool, walked: Seq<AncestryStep>, now: int)
    requires
        walked.len() <= usize::MAX,
    ensures
        tag_is_tip ==> distance_spec(true, tag_is_tip, walked, now) is AtTip,
        !tag_is_tip && walked.len() > 0 && walked.last() is Revision ==>
            distance_spec(true, tag_is_tip, walked, now) == (ReleaseDistance::Since {
                revisions: walked.len() as usize,
                first_age_days: days_between(walked.last()->timestamp as int, now) as i64,
            }),
{
}

} // verus!
