//! What `status` shows of a migrations directory.

use crate::baseline::{Baseline, BaselineView};
use crate::state::{
    current_version, get_current_version, get_pending, get_target_version, pending, target_version,
};
use crate::text::{chars_of, less_or_same, lex_le, same_text, slice_of};
use crate::time::{Instant, Timestamp};
use crate::{AppliedMigration, AppliedMigrationView, Migration, MigrationView};
use vstd::prelude::*;

verus! {

/// The line that tells the version of the directory.
#[derive(Debug)]
pub enum Headline {
    /// Migrations are pending: the directory is at `from`, or at no version where
    /// `from` is `None`, and can reach `to`.
    Behind { from: Option<String>, to: String, pending: usize },
    /// The last migration was applied.
    UpToDate { version: String },
    /// No migration is left, and the baseline is at `version`.
    Baselined { version: String },
    /// Nothing to tell.
    Nothing,
}

/// What a `Headline` holds.
pub enum HeadlineView {
    Behind { from: Option<Seq<char>>, to: Seq<char>, pending: nat },
    UpToDate { version: Seq<char> },
    Baselined { version: Seq<char> },
    Nothing,
}

impl View for Headline {
    type V = HeadlineView;

    open spec fn view(&self) -> HeadlineView {
        match self {
            Headline::Behind { from, to, pending } => HeadlineView::Behind {
                from: from.deep_view(),
                to: to@,
                pending: *pending as nat,
            },
            Headline::UpToDate { version } => HeadlineView::UpToDate { version: version@ },
            Headline::Baselined { version } => HeadlineView::Baselined { version: version@ },
            Headline::Nothing => HeadlineView::Nothing,
        }
    }
}

/// The headline for a directory at the version `current` that can reach
/// `target`, with a baseline at `baseline` and `pending` migrations pending.
/// Where no available migration was applied, the baseline stands for the
/// version that the directory is at.
pub open spec fn headline_of(
    current: Option<Seq<char>>,
    target: Option<Seq<char>>,
    baseline: Option<Seq<char>>,
    pending: nat,
) -> HeadlineView {
    match (current, target) {
        (None, Some(to)) => HeadlineView::Behind { from: baseline, to, pending },
        (Some(at), Some(to)) => if at == to {
            HeadlineView::UpToDate { version: at }
        } else {
            HeadlineView::Behind { from: Some(at), to, pending }
        },
        (None, None) => match baseline {
            Some(version) => HeadlineView::Baselined { version },
            None => HeadlineView::Nothing,
        },
        (Some(_), None) => HeadlineView::Nothing,
    }
}

/// The headline for a directory at the version `current` that can reach `target`.
pub fn headline(
    current: Option<String>,
    target: Option<String>,
    baseline: Option<&Baseline>,
    pending: usize,
) -> (r: Headline)
    ensures
        r@ == headline_of(
            current.deep_view(),
            target.deep_view(),
            match baseline {
                Some(b) => Some(b@.version),
                None => None,
            },
            pending as nat,
        ),
{
    match (current, target) {
        (None, Some(to)) => {
            let from = match baseline {
                Some(b) => Some(b.version.clone()),
                None => None,
            };
            Headline::Behind { from, to, pending }
        },
        (Some(at), Some(to)) => {
            if same_text(at.as_str(), to.as_str()) {
                Headline::UpToDate { version: at }
            } else {
                Headline::Behind { from: Some(at), to, pending }
            }
        },
        (None, None) => match baseline {
            Some(b) => Headline::Baselined { version: b.version.clone() },
            None => Headline::Nothing,
        },
        (Some(_), None) => Headline::Nothing,
    }
}

/// The version that the id of a migration begins with: its first five
/// characters, where a dash follows them.
pub open spec fn id_version(id: Seq<char>) -> Option<Seq<char>> {
    if id.len() >= 6 && id[5] == '-' {
        Some(id.take(5))
    } else {
        None
    }
}

/// Whether a record is shown as covered by the baseline: there is a baseline, and
/// the version that the id begins with is at or before it. An id that begins
/// with no version is shown as covered by any baseline.
pub open spec fn shown_as_baselined(id: Seq<char>, baseline: Option<BaselineView>) -> bool {
    &&& baseline is Some
    &&& id_version(id) matches Some(v) ==> lex_le(v, baseline->0.version)
}

/// Whether a record of the migration `id` is shown as covered by the baseline.
pub fn is_baselined(id: &str, baseline: Option<&Baseline>) -> (r: bool)
    ensures
        r == shown_as_baselined(id@, baseline.deep_view()),
{
    let b = match baseline {
        Some(b) => b,
        None => {
            return false;
        },
    };
    let chars = chars_of(id);
    if chars.len() >= 6 && chars[5] == '-' {
        assert(chars@.take(5) == chars@.subrange(0, 5));
        let version = slice_of(&chars, 0, 5);
        let at = chars_of(b.version.as_str());
        less_or_same(&version, &at)
    } else {
        true
    }
}

/// A record as `status` shows it.
#[derive(Debug)]
pub struct AppliedLine {
    pub id: String,
    pub applied_at: Timestamp,
    /// Whether the record is shown as covered by the baseline.
    pub baselined: bool,
}

/// What an `AppliedLine` holds.
pub struct AppliedLineView {
    pub id: Seq<char>,
    pub applied_at: Instant,
    pub baselined: bool,
}

impl View for AppliedLine {
    type V = AppliedLineView;

    open spec fn view(&self) -> AppliedLineView {
        AppliedLineView { id: self.id@, applied_at: self.applied_at@, baselined: self.baselined }
    }
}

impl DeepView for AppliedLine {
    type V = AppliedLineView;

    open spec fn deep_view(&self) -> AppliedLineView {
        self@
    }
}

/// What `status` shows.
#[derive(Debug)]
pub struct Status {
    /// The baseline, where there is one.
    pub baseline: Option<Baseline>,
    pub headline: Headline,
    /// The records of the history, in their order.
    pub applied: Vec<AppliedLine>,
    /// The ids of the pending migrations, in the order in which they will run.
    pub pending: Vec<String>,
}

/// What a `Status` holds.
pub struct StatusView {
    pub baseline: Option<BaselineView>,
    pub headline: HeadlineView,
    pub applied: Seq<AppliedLineView>,
    pub pending: Seq<Seq<char>>,
}

impl View for Status {
    type V = StatusView;

    open spec fn view(&self) -> StatusView {
        StatusView {
            baseline: self.baseline.deep_view(),
            headline: self.headline@,
            applied: self.applied.deep_view(),
            pending: self.pending.deep_view(),
        }
    }
}

impl DeepView for Status {
    type V = StatusView;

    open spec fn deep_view(&self) -> StatusView {
        self@
    }
}

/// What `status` shows of a directory; `None` where it holds neither a migration
/// nor a baseline.
pub open spec fn status_of(
    available: Seq<MigrationView>,
    applied: Seq<AppliedMigrationView>,
    baseline: Option<BaselineView>,
) -> Option<StatusView> {
    if available.len() == 0 && baseline is None {
        None
    } else {
        let waiting = pending(available, applied, baseline);
        Some(
            StatusView {
                baseline,
                headline: headline_of(
                    current_version(available, applied),
                    target_version(available),
                    match baseline {
                        Some(b) => Some(b.version),
                        None => None,
                    },
                    waiting.len(),
                ),
                applied: applied.map_values(
                    |a: AppliedMigrationView|
                        AppliedLineView {
                            id: a.id,
                            applied_at: a.applied_at,
                            baselined: shown_as_baselined(a.id, baseline),
                        },
                ),
                pending: waiting.map_values(|m: MigrationView| m.id),
            },
        )
    }
}

/// What `status` shows of a directory with these migrations, these records and
/// this baseline; `None` where it holds neither a migration nor a baseline.
pub fn status(
    available: &[Migration],
    applied: &[AppliedMigration],
    baseline: Option<&Baseline>,
) -> (r: Option<Status>)
    ensures
        r.deep_view() == status_of(
            available.deep_view(),
            applied.deep_view(),
            baseline.deep_view(),
        ),
{
    if available.len() == 0 && baseline.is_none() {
        assert(available.deep_view().len() == 0);
        return None;
    }
    assert(!(available.deep_view().len() == 0 && baseline.deep_view() is None));
    let waiting = get_pending(available, applied, baseline);
    let ghost waiting_view = waiting.deep_view();
    let current = get_current_version(available, applied);
    let target = get_target_version(available);
    let line = headline(current, target, baseline, waiting.len());

    let mut ids: Vec<String> = Vec::new();
    let mut i: usize = 0;
    while i < waiting.len()
        invariant
            i <= waiting.len(),
            waiting_view == waiting.deep_view(),
            ids.deep_view() == waiting_view.map_values(|m: MigrationView| m.id).take(i as int),
        decreases waiting.len() - i,
    {
        let ghost before = ids.deep_view();
        let id = waiting[i].id.clone();
        ids.push(id);
        proof {
            let all = waiting_view.map_values(|m: MigrationView| m.id);
            assert(waiting_view[i as int] == waiting[i as int]@);
            assert(ids.deep_view() =~= before.push(all[i as int]));
            assert(all.take(i + 1) =~= all.take(i as int).push(all[i as int]));
        }
        i = i + 1;
    }
    proof {
        let all = waiting_view.map_values(|m: MigrationView| m.id);
        assert(all.take(waiting.len() as int) == all);
    }

    let mut lines: Vec<AppliedLine> = Vec::new();
    let ghost shown = applied.deep_view().map_values(
        |a: AppliedMigrationView|
            AppliedLineView {
                id: a.id,
                applied_at: a.applied_at,
                baselined: shown_as_baselined(a.id, baseline.deep_view()),
            },
    );
    let mut k: usize = 0;
    while k < applied.len()
        invariant
            k <= applied.len(),
            shown == applied.deep_view().map_values(
                |a: AppliedMigrationView|
                    AppliedLineView {
                        id: a.id,
                        applied_at: a.applied_at,
                        baselined: shown_as_baselined(a.id, baseline.deep_view()),
                    },
            ),
            lines.deep_view() == shown.take(k as int),
        decreases applied.len() - k,
    {
        let ghost before = lines.deep_view();
        let record = &applied[k];
        let entry = AppliedLine {
            id: record.id.clone(),
            applied_at: record.applied_at,
            baselined: is_baselined(record.id.as_str(), baseline),
        };
        proof {
            assert(applied.deep_view()[k as int] == record@);
            assert(entry@ == shown[k as int]);
        }
        let ghost added = entry@;
        lines.push(entry);
        proof {
            assert(lines.deep_view() =~= before.push(added));
            assert(shown.take(k + 1) =~= shown.take(k as int).push(shown[k as int]));
        }
        k = k + 1;
    }
    assert(shown.take(applied.len() as int) == shown);
    let kept = match baseline {
        Some(b) => Some(b.clone()),
        None => None,
    };
    Some(Status { baseline: kept, headline: line, applied: lines, pending: ids })
}

} // verus!
