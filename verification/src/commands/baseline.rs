//! What `baseline` does: set the baseline at a version, and let the files of the
//! migrations go that it covers.

use crate::baseline::{
    baselined_migrations, covered, validate_baseline, validation, Baseline, BaselineView,
};
use crate::error::{ValidationError, ValidationErrorView};
use crate::time::{Instant, Timestamp};
use crate::{AppliedMigration, Migration, MigrationView};
use vstd::prelude::*;

verus! {

/// What is to be done to set a baseline.
#[derive(Debug)]
pub struct Plan<'a> {
    /// The baseline that is set.
    pub baseline: Baseline,
    /// The migrations that it covers, in their order.
    pub covered: Vec<&'a Migration>,
    /// Whether the baseline file is written: not in a dry run.
    pub write: bool,
    /// Whether the files of the covered migrations are deleted: not in a dry
    /// run, not where they are to be kept, and not where there are none.
    pub delete: bool,
}

/// What a `Plan` holds.
pub struct PlanView {
    pub baseline: BaselineView,
    pub covered: Seq<MigrationView>,
    pub write: bool,
    pub delete: bool,
}

impl<'a> View for Plan<'a> {
    type V = PlanView;

    open spec fn view(&self) -> PlanView {
        PlanView {
            baseline: self.baseline@,
            covered: self.covered.deep_view(),
            write: self.write,
            delete: self.delete,
        }
    }
}

/// What is to be done to set a baseline at `version` at the time `now`.
pub open spec fn planned(
    version: Seq<char>,
    summary: Option<Seq<char>>,
    dry_run: bool,
    keep: bool,
    available: Seq<MigrationView>,
    now: Instant,
) -> PlanView {
    PlanView {
        baseline: BaselineView { version, created: now, summary },
        covered: covered(available, version),
        write: !dry_run,
        delete: !dry_run && !keep && covered(available, version).len() > 0,
    }
}

/// What is to be done to set a baseline at `version` at the time `now`. Whether
/// the baseline may be set there is not looked at.
pub fn plan_at<'a>(
    version: &str,
    summary: Option<&str>,
    dry_run: bool,
    keep: bool,
    available: &'a [Migration],
    now: Timestamp,
) -> (r: Plan<'a>)
    ensures
        r@ == planned(version@, summary.deep_view(), dry_run, keep, available.deep_view(), now@),
{
    let covered = baselined_migrations(version, available);
    let text = match summary {
        Some(text) => Some(text.to_owned()),
        None => None,
    };
    let delete = !dry_run && !keep && covered.len() > 0;
    Plan {
        baseline: Baseline { version: version.to_owned(), created: now, summary: text },
        covered,
        write: !dry_run,
        delete,
    }
}

/// What is to be done to set a baseline at `version` at the time `now`, where
/// it may be set there; why it may not be set, where it may not. Nothing is
/// planned before it is known that the baseline may be set.
pub fn plan<'a>(
    version: &str,
    summary: Option<&str>,
    dry_run: bool,
    keep: bool,
    available: &'a [Migration],
    applied: &[AppliedMigration],
    existing_baseline: Option<&Baseline>,
    now: Timestamp,
) -> (r: Result<Plan<'a>, ValidationError>)
    ensures
        match r {
            Ok(p) => {
                &&& validation(
                    version@,
                    available.deep_view(),
                    applied.deep_view(),
                    existing_baseline.deep_view(),
                ) == Ok::<(), ValidationErrorView>(())
                &&& p@ == planned(
                    version@,
                    summary.deep_view(),
                    dry_run,
                    keep,
                    available.deep_view(),
                    now@,
                )
            },
            Err(e) => validation(
                version@,
                available.deep_view(),
                applied.deep_view(),
                existing_baseline.deep_view(),
            ) == Err::<(), ValidationErrorView>(e@),
        },
{
    match validate_baseline(version, available, applied, existing_baseline) {
        Ok(_) => Ok(plan_at(version, summary, dry_run, keep, available, now)),
        Err(e) => Err(e),
    }
}

/// What is to be done about the baseline after a run of `up` that has completed:
/// nothing unless a baseline was asked for and the run had migrations to apply,
/// and else a baseline without a summary at the version of the last of them.
pub open spec fn planned_after_run(
    create_baseline: bool,
    last_version: Option<Seq<char>>,
    dry_run: bool,
    keep: bool,
    available: Seq<MigrationView>,
    now: Instant,
) -> Option<PlanView> {
    if create_baseline && last_version is Some {
        Some(planned(last_version->0, None, dry_run, keep, available, now))
    } else {
        None
    }
}

/// What is to be done about the baseline after a run of `up` that has completed;
/// `last_version` is the version of the last migration of the run.
pub fn plan_after_run<'a>(
    create_baseline: bool,
    last_version: Option<&str>,
    dry_run: bool,
    keep: bool,
    available: &'a [Migration],
    now: Timestamp,
) -> (r: Option<Plan<'a>>)
    ensures
        match r {
            Some(p) => planned_after_run(
                create_baseline,
                last_version.deep_view(),
                dry_run,
                keep,
                available.deep_view(),
                now@,
            ) == Some(p@),
            None => planned_after_run(
                create_baseline,
                last_version.deep_view(),
                dry_run,
                keep,
                available.deep_view(),
                now@,
            ) is None,
        },
{
    if !create_baseline {
        return None;
    }
    match last_version {
        Some(version) => Some(plan_at(version, None, dry_run, keep, available, now)),
        None => None,
    }
}

} // verus!
