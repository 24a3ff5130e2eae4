//! The history of a migrations directory: which migrations were applied, which
//! are pending, and the versions that the directory is at and can reach.

use crate::baseline::{Baseline, BaselineView};
use crate::error::{ParseFailure, ParseFailureView};
use crate::sequences::lemma_filter_none;
use crate::sequences::lemma_filter_member;
use crate::text::{
    chars_of, ends_its_lines, find_char, holds_once, index_of_char, is_token, is_white_space,
    lemma_first_index_unique, lemma_lex_lt_asymmetric, lemma_lex_lt_irreflexive,
    lemma_lines_of_concat, lemma_lines_of_one, less, lex_le, lex_lt, lines_of, slice_of,
    split_lines, string_of, trim, trim_of,
};
use crate::time::{has_four_digit_year, instant_of, text_of, Instant, Timestamp};
use crate::{AppliedMigration, AppliedMigrationView, Migration, MigrationView};
use vstd::prelude::*;
use vstd::string::StringExecFns;

verus! {

/// Whether a record says that the migration `id` was applied.
pub open spec fn is_applied(applied: Seq<AppliedMigrationView>, id: Seq<char>) -> bool {
    exists|i: int| 0 <= i < applied.len() && (#[trigger] applied[i]).id == id
}

/// Whether a record of `applied` has the id `id`.
pub fn has_record(applied: &[AppliedMigration], id: &String) -> (r: bool)
    ensures
        r == is_applied(applied.deep_view(), id@),
{
    let mut i: usize = 0;
    while i < applied.len()
        invariant
            i <= applied.len(),
            forall|j: int| 0 <= j < i ==> (#[trigger] applied.deep_view()[j]).id != id@,
        decreases applied.len() - i,
    {
        if applied[i].id == *id {
            assert(applied.deep_view()[i as int].id == id@);
            return true;
        }
        i = i + 1;
    }
    false
}

/// Whether the migration is still to be applied: no record has its id, and no
/// baseline is at its version or at a later one.
pub open spec fn is_pending(
    m: MigrationView,
    applied: Seq<AppliedMigrationView>,
    baseline: Option<BaselineView>,
) -> bool {
    &&& !is_applied(applied, m.id)
    &&& baseline matches Some(b) ==> lex_lt(b.version, m.version)
}

/// The migrations that are still to be applied, in the order of `available`.
pub open spec fn pending(
    available: Seq<MigrationView>,
    applied: Seq<AppliedMigrationView>,
    baseline: Option<BaselineView>,
) -> Seq<MigrationView> {
    available.filter(|m: MigrationView| is_pending(m, applied, baseline))
}

/// The migrations that are still to be applied, in the order of `available`:
/// those without a record, and with a version after that of the baseline where
/// there is a baseline.
pub fn get_pending<'a>(
    available: &'a [Migration],
    applied: &[AppliedMigration],
    baseline: Option<&Baseline>,
) -> (r: Vec<&'a Migration>)
    ensures
        r.deep_view() == pending(
            available.deep_view(),
            applied.deep_view(),
            baseline.deep_view(),
        ),
{
    let floor: Option<Vec<char>> = match baseline {
        Some(b) => Some(chars_of(b.version.as_str())),
        None => None,
    };
    let mut r: Vec<&'a Migration> = Vec::new();
    let mut i: usize = 0;
    let ghost pred = |m: MigrationView|
        is_pending(m, applied.deep_view(), baseline.deep_view());
    proof {
        reveal(Seq::filter);
        assert(available.deep_view().take(0) == Seq::<MigrationView>::empty());
        assert(r.deep_view() == Seq::<MigrationView>::empty());
    }
    while i < available.len()
        invariant
            i <= available.len(),
            floor is Some <==> baseline is Some,
            floor matches Some(f) ==> f@ == baseline.deep_view()->0.version,
            pred == (|m: MigrationView| is_pending(m, applied.deep_view(), baseline.deep_view())),
            r.deep_view() == available.deep_view().take(i as int).filter(pred),
        decreases available.len() - i,
    {
        let m = &available[i];
        proof {
            reveal(Seq::filter);
            let upto = available.deep_view().take(i + 1);
            assert(upto.drop_last() == available.deep_view().take(i as int));
            assert(upto.last() == m@);
        }
        let above = match &floor {
            Some(f) => {
                let have = chars_of(m.version.as_str());
                less(f, &have)
            },
            None => true,
        };
        if above && !has_record(applied, &m.id) {
            let ghost before = r.deep_view();
            r.push(m);
            assert(r.deep_view() == before.push(m@));
        }
        i = i + 1;
    }
    assert(available.deep_view().take(available.len() as int) == available.deep_view());
    r
}

/// The version of the last migration of `available` that was applied.
pub open spec fn current_version(
    available: Seq<MigrationView>,
    applied: Seq<AppliedMigrationView>,
) -> Option<Seq<char>>
    decreases available.len(),
{
    if available.len() == 0 {
        None
    } else if is_applied(applied, available.last().id) {
        Some(available.last().version)
    } else {
        current_version(available.drop_last(), applied)
    }
}

/// `current_version` is the version of an available migration that was applied,
/// after which no available migration was applied; it is `None` where no
/// available migration was applied.
pub proof fn lemma_current_version(
    available: Seq<MigrationView>,
    applied: Seq<AppliedMigrationView>,
)
    ensures
        match current_version(available, applied) {
            Some(version) => exists|i: int|
                {
                    &&& 0 <= i < available.len()
                    &&& (#[trigger] available[i]).version == version
                    &&& is_applied(applied, available[i].id)
                    &&& forall|j: int|
                        i < j < available.len() ==> !is_applied(
                            applied,
                            (#[trigger] available[j]).id,
                        )
                },
            None => forall|i: int|
                0 <= i < available.len() ==> !is_applied(applied, (#[trigger] available[i]).id),
        },
    decreases available.len(),
{
    if available.len() == 0 {
    } else if is_applied(applied, available.last().id) {
        assert(available[available.len() - 1].version == current_version(available, applied)->0);
    } else {
        let rest = available.drop_last();
        lemma_current_version(rest, applied);
        match current_version(rest, applied) {
            Some(version) => {
                let i = choose|i: int|
                    {
                        &&& 0 <= i < rest.len()
                        &&& (#[trigger] rest[i]).version == version
                        &&& is_applied(applied, rest[i].id)
                        &&& forall|j: int|
                            i < j < rest.len() ==> !is_applied(applied, (#[trigger] rest[j]).id)
                    };
                assert(available[i] == rest[i]);
                assert forall|j: int| i < j < available.len() implies !is_applied(
                    applied,
                    (#[trigger] available[j]).id,
                ) by {
                    if j < rest.len() {
                        assert(available[j] == rest[j]);
                    }
                }
            },
            None => {
                assert forall|i: int| 0 <= i < available.len() implies !is_applied(
                    applied,
                    (#[trigger] available[i]).id,
                ) by {
                    if i < rest.len() {
                        assert(available[i] == rest[i]);
                    }
                }
            },
        }
    }
}

/// The version that the directory is at: that of the last of the available
/// migrations that has a record. Records of migrations that are no longer
/// available do not count, and neither does a baseline.
pub fn get_current_version(available: &[Migration], applied: &[AppliedMigration]) -> (r: Option<
    String,
>)
    ensures
        r.deep_view() == current_version(available.deep_view(), applied.deep_view()),
{
    let mut i: usize = available.len();
    assert(available.deep_view().take(i as int) == available.deep_view());
    while i > 0
        invariant
            i <= available.len(),
            current_version(available.deep_view(), applied.deep_view()) == current_version(
                available.deep_view().take(i as int),
                applied.deep_view(),
            ),
        decreases i,
    {
        let m = &available[i - 1];
        proof {
            let upto = available.deep_view().take(i as int);
            assert(upto.last() == m@);
            assert(upto.drop_last() == available.deep_view().take(i - 1));
        }
        if has_record(applied, &m.id) {
            return Some(m.version.clone());
        }
        i = i - 1;
    }
    None
}

/// The version of the last of the available migrations.
pub open spec fn target_version(available: Seq<MigrationView>) -> Option<Seq<char>> {
    if available.len() == 0 {
        None
    } else {
        Some(available.last().version)
    }
}

/// The version that the directory can reach: that of the last of the available
/// migrations.
pub fn get_target_version(available: &[Migration]) -> (r: Option<String>)
    ensures
        r.deep_view() == target_version(available.deep_view()),
{
    if available.len() == 0 {
        None
    } else {
        Some(available[available.len() - 1].version.clone())
    }
}

/// Nothing is pending where every available migration has a record.
pub proof fn lemma_nothing_pending_when_all_applied(
    available: Seq<MigrationView>,
    applied: Seq<AppliedMigrationView>,
    baseline: Option<BaselineView>,
)
    requires
        forall|i: int| 0 <= i < available.len() ==> is_applied(applied, #[trigger] available[i].id),
    ensures
        pending(available, applied, baseline) == Seq::<MigrationView>::empty(),
{
    let pred = |m: MigrationView| is_pending(m, applied, baseline);
    assert forall|i: int| 0 <= i < available.len() implies !pred(#[trigger] available[i]) by {
        assert(is_applied(applied, available[i].id));
    }
    lemma_filter_none(available, pred);
}

/// What is pending comes after the baseline: a migration at or before the
/// version of the baseline is not pending, whether or not it has a record.
pub proof fn lemma_pending_excludes_baselined(
    available: Seq<MigrationView>,
    applied: Seq<AppliedMigrationView>,
    baseline: BaselineView,
    m: MigrationView,
)
    requires
        lex_le(m.version, baseline.version),
    ensures
        !pending(available, applied, Some(baseline)).contains(m),
{
    let pred = |x: MigrationView| is_pending(x, applied, Some(baseline));
    lemma_filter_member(available, pred, m);
    if lex_lt(baseline.version, m.version) {
        if m.version == baseline.version {
            lemma_lex_lt_irreflexive(m.version);
        } else {
            lemma_lex_lt_asymmetric(m.version, baseline.version);
        }
    }
}

/// Once every pending migration has a record, nothing is pending: a second run
/// finds nothing to do.
pub proof fn lemma_nothing_pending_after_run(
    available: Seq<MigrationView>,
    applied: Seq<AppliedMigrationView>,
    baseline: Option<BaselineView>,
    recorded: Seq<AppliedMigrationView>,
)
    requires
        forall|i: int|
            0 <= i < pending(available, applied, baseline).len() ==> is_applied(
                recorded,
                #[trigger] pending(available, applied, baseline)[i].id,
            ),
    ensures
        pending(available, applied + recorded, baseline) == Seq::<MigrationView>::empty(),
{
    let before = |m: MigrationView| is_pending(m, applied, baseline);
    let after = |m: MigrationView| is_pending(m, applied + recorded, baseline);
    let all = applied + recorded;
    assert forall|i: int| 0 <= i < available.len() implies !after(#[trigger] available[i]) by {
        let m = available[i];
        if is_applied(applied, m.id) {
            let k = choose|k: int| 0 <= k < applied.len() && (#[trigger] applied[k]).id == m.id;
            assert(all[k].id == m.id);
        } else if before(m) {
            lemma_filter_member(available, before, m);
            let picked = pending(available, applied, baseline);
            let j = choose|j: int| 0 <= j < picked.len() && picked[j] == m;
            assert(is_applied(recorded, picked[j].id));
            let k = choose|k: int| 0 <= k < recorded.len() && (#[trigger] recorded[k]).id == m.id;
            assert(all[applied.len() + k].id == m.id);
        }
    }
    lemma_filter_none(available, after);
}

/// The id and the text of the timestamp in a line of the history: what stands
/// before and behind the space of the line, once trimmed, where one space stands
/// in it and no more. `None` for any other line: one without a space, and one
/// with two spaces or more.
pub open spec fn record_parts(line: Seq<char>) -> Option<(Seq<char>, Seq<char>)> {
    let t = trim_of(line);
    let k = index_of_char(t, ' ');
    if holds_once(t, ' ') {
        Some((t.take(k), t.skip(k + 1)))
    } else {
        None
    }
}

fn split_chars(line: &Vec<char>) -> (r: Option<(String, String)>)
    ensures
        r.deep_view() == record_parts(line@),
{
    let t = trim(line);
    let k = find_char(&t, ' ');
    if k >= t.len() {
        return None;
    }
    let rest = slice_of(&t, k + 1, t.len());
    assert(t@.skip(k + 1) == t@.subrange(k + 1, t.len() as int));
    if find_char(&rest, ' ') < rest.len() {
        return None;
    }
    assert(t@.take(k as int) == t@.subrange(0, k as int));
    assert(rest@.subrange(0, rest.len() as int) == rest@);
    Some((string_of(&t, 0, k), string_of(&rest, 0, rest.len())))
}

/// The id and the text of the timestamp in a line of the history; `None` for a
/// line that is no record.
pub fn split_record(line: &str) -> (r: Option<(String, String)>)
    ensures
        r.deep_view() == record_parts(line@),
{
    let chars = chars_of(line);
    split_chars(&chars)
}

/// The record with this id whose timestamp was read as `at`; the failure where it
/// was read as none.
pub open spec fn record_of(id: Seq<char>, text: Seq<char>, at: Option<Instant>) -> Result<
    AppliedMigrationView,
    ParseFailureView,
> {
    match at {
        Some(at) => Ok(AppliedMigrationView { id, applied_at: at }),
        None => Err(ParseFailureView::HistoryTimestamp { text }),
    }
}

/// The record with this id, where `at` is what the text of its timestamp was read as.
pub fn make_record(id: String, text: String, at: Option<Timestamp>) -> (r: Result<
    AppliedMigration,
    ParseFailure,
>)
    ensures
        match r {
            Ok(record) => record_of(id@, text@, at.deep_view()) == Ok::<
                AppliedMigrationView,
                ParseFailureView,
            >(record@),
            Err(e) => record_of(id@, text@, at.deep_view()) == Err::<
                AppliedMigrationView,
                ParseFailureView,
            >(e@),
        },
{
    match at {
        Some(at) => Ok(AppliedMigration { id, applied_at: at }),
        None => Err(ParseFailure::HistoryTimestamp { text }),
    }
}

/// The records that the lines of a history hold, in their order. A line that is
/// no record is passed over; the first record whose timestamp is none fails the
/// whole.
pub open spec fn parsed_history(lines: Seq<Seq<char>>) -> Result<
    Seq<AppliedMigrationView>,
    ParseFailureView,
>
    decreases lines.len(),
{
    if lines.len() == 0 {
        Ok(Seq::empty())
    } else {
        match parsed_history(lines.drop_last()) {
            Err(e) => Err(e),
            Ok(records) => match record_parts(lines.last()) {
                None => Ok(records),
                Some((id, text)) => match record_of(id, text, instant_of(text)) {
                    Ok(record) => Ok(records.push(record)),
                    Err(e) => Err(e),
                },
            },
        }
    }
}

/// The record that a line of the history holds, where it holds one with a
/// timestamp that is one.
pub open spec fn good_record(line: Seq<char>) -> Option<AppliedMigrationView> {
    match record_parts(line) {
        Some((id, text)) => match instant_of(text) {
            Some(at) => Some(AppliedMigrationView { id, applied_at: at }),
            None => None,
        },
        None => None,
    }
}

/// The text of the timestamp in a line of the history that holds a record.
pub open spec fn stamp_of(line: Seq<char>) -> Seq<char> {
    match record_parts(line) {
        Some((id, text)) => text,
        None => Seq::empty(),
    }
}

/// Whether a line of the history holds a record with a timestamp that is none.
pub open spec fn is_bad_record(line: Seq<char>) -> bool {
    record_parts(line) matches Some((id, text)) && instant_of(text) is None
}

/// A history is read where none of its lines is a record with a timestamp that
/// is none, and then the records are those that its lines hold, in their order;
/// lines that are no records do not matter. Else it fails with the first such
/// line.
pub proof fn lemma_parsed_history(lines: Seq<Seq<char>>)
    ensures
        match parsed_history(lines) {
            Ok(records) => {
                &&& forall|i: int| 0 <= i < lines.len() ==> !is_bad_record(#[trigger] lines[i])
                &&& records == lines.filter_map(|line: Seq<char>| good_record(line))
            },
            Err(e) => exists|i: int|
                {
                    &&& 0 <= i < lines.len()
                    &&& is_bad_record(#[trigger] lines[i])
                    &&& forall|j: int| 0 <= j < i ==> !is_bad_record(#[trigger] lines[j])
                    &&& e == (ParseFailureView::HistoryTimestamp { text: stamp_of(lines[i]) })
                },
        },
    decreases lines.len(),
{
    if lines.len() > 0 {
        let front = lines.drop_last();
        let last = lines.last();
        lemma_parsed_history(front);
        match parsed_history(front) {
            Ok(records) => {
                assert forall|i: int| 0 <= i < front.len() implies !is_bad_record(
                    #[trigger] lines[i],
                ) by {
                    assert(lines[i] == front[i]);
                }
                if is_bad_record(last) {
                    assert(lines[lines.len() - 1] == last);
                } else {
                    assert(records + seq![good_record(last)->0] == records.push(
                        good_record(last)->0,
                    ));
                }
            },
            Err(e) => {
                let i = choose|i: int|
                    {
                        &&& 0 <= i < front.len()
                        &&& is_bad_record(#[trigger] front[i])
                        &&& forall|j: int| 0 <= j < i ==> !is_bad_record(#[trigger] front[j])
                        &&& e == (ParseFailureView::HistoryTimestamp { text: stamp_of(front[i]) })
                    };
                assert(lines[i] == front[i]);
                assert forall|j: int| 0 <= j < i implies !is_bad_record(#[trigger] lines[j]) by {
                    assert(lines[j] == front[j]);
                }
            },
        }
    }
}

/// The records of a history file with this content; a file that is missing holds none.
pub open spec fn history_of(content: Option<Seq<char>>) -> Result<
    Seq<AppliedMigrationView>,
    ParseFailureView,
> {
    match content {
        Some(text) => parsed_history(lines_of(text)),
        None => Ok(Seq::empty()),
    }
}

/// The records of the history file, in the order in which the migrations were
/// applied. `content` is what the file holds, `None` where there is no file.
pub fn read_history(content: Option<&str>) -> (r: Result<Vec<AppliedMigration>, ParseFailure>)
    ensures
        match r {
            Ok(records) => history_of(content.deep_view()) == Ok::<
                Seq<AppliedMigrationView>,
                ParseFailureView,
            >(records.deep_view()),
            Err(e) => history_of(content.deep_view()) == Err::<
                Seq<AppliedMigrationView>,
                ParseFailureView,
            >(e@),
        },
{
    let mut records: Vec<AppliedMigration> = Vec::new();
    let text = match content {
        Some(text) => text,
        None => {
            assert(records.deep_view() == Seq::<AppliedMigrationView>::empty());
            return Ok(records);
        },
    };
    let chars = chars_of(text);
    let lines = split_lines(&chars);
    let mut i: usize = 0;
    proof {
        assert(lines.deep_view().take(0) == Seq::<Seq<char>>::empty());
        assert(records.deep_view() == Seq::<AppliedMigrationView>::empty());
    }
    while i < lines.len()
        invariant
            i <= lines.len(),
            content.deep_view() == Some(text@),
            lines.deep_view() == lines_of(text@),
            parsed_history(lines.deep_view().take(i as int)) == Ok::<
                Seq<AppliedMigrationView>,
                ParseFailureView,
            >(records.deep_view()),
        decreases lines.len() - i,
    {
        proof {
            let upto = lines.deep_view().take(i + 1);
            assert(upto.drop_last() == lines.deep_view().take(i as int));
            assert(upto.last() == lines[i as int]@);
        }
        if let Some((id, text)) = split_chars(&lines[i]) {
            let at = Timestamp::parse_rfc3339(text.as_str());
            let ghost parts = (id@, text@);
            match make_record(id, text, at) {
                Ok(record) => {
                    let ghost before = records.deep_view();
                    let ghost added = record@;
                    records.push(record);
                    assert(records.deep_view() == before.push(added));
                },
                Err(e) => {
                    proof {
                        assert(record_parts(lines[i as int]@) == Some(parts));
                        assert(parsed_history(lines.deep_view().take(i + 1)) == Err::<
                            Seq<AppliedMigrationView>,
                            ParseFailureView,
                        >(e@));
                        lemma_history_fails(lines.deep_view(), i + 1);
                    }
                    return Err(e);
                },
            }
        }
        i = i + 1;
    }
    assert(lines.deep_view().take(lines.len() as int) == lines.deep_view());
    Ok(records)
}

/// A history that fails within its first `k` lines fails as a whole, and in the
/// same way.
proof fn lemma_history_fails(lines: Seq<Seq<char>>, k: int)
    requires
        0 <= k <= lines.len(),
        parsed_history(lines.take(k)) is Err,
    ensures
        parsed_history(lines) == parsed_history(lines.take(k)),
    decreases lines.len() - k,
{
    if k < lines.len() {
        assert(lines.take(k + 1).drop_last() == lines.take(k));
        lemma_history_fails(lines, k + 1);
    } else {
        assert(lines.take(k) == lines);
    }
}

/// The line of a record in the history: the id, a space, the text of the
/// timestamp, and a line feed.
pub open spec fn record_line(id: Seq<char>, stamp: Seq<char>) -> Seq<char> {
    id + " "@ + stamp + "\n"@
}

/// The line that records in the history that the migration `id` was applied at `at`.
pub open spec fn history_line(id: Seq<char>, at: Instant) -> Seq<char> {
    record_line(id, text_of(at))
}

/// What is read from a history after one more record: what was read before and
/// then the record, and the failure where there was one before or the timestamp
/// of the record is none.
pub open spec fn with_record(
    before: Result<Seq<AppliedMigrationView>, ParseFailureView>,
    record: Result<AppliedMigrationView, ParseFailureView>,
) -> Result<Seq<AppliedMigrationView>, ParseFailureView> {
    match before {
        Ok(records) => match record {
            Ok(record) => Ok(records.push(record)),
            Err(e) => Err(e),
        },
        Err(e) => Err(e),
    }
}

/// A text that begins and ends with something other than white space stays as it
/// is when it is trimmed.
proof fn lemma_trim_of_solid(text: Seq<char>)
    requires
        text.len() > 0,
        !is_white_space(text[0]),
        !is_white_space(text.last()),
    ensures
        trim_of(text) == text,
{
}

/// A record that was added to a history is read from it behind the records that
/// the history held. This holds of a history that ends its lines, of an id that
/// is a token, and of a text for the timestamp that is one.
pub proof fn lemma_appended_record_is_read(history: Seq<char>, id: Seq<char>, stamp: Seq<char>)
    requires
        ends_its_lines(history),
        is_token(id),
        is_token(stamp),
    ensures
        history_of(Some(history + record_line(id, stamp))) == with_record(
            history_of(Some(history)),
            record_of(id, stamp, instant_of(stamp)),
        ),
{
    reveal_strlit(" ");
    reveal_strlit("\n");
    let row = id + " "@ + stamp;
    let feed = seq!['\n'];
    assert(" "@ =~= seq![' ']);
    assert("\n"@ =~= feed);
    assert(record_line(id, stamp) == row + feed);
    assert(is_white_space('\n') && is_white_space('\r') && is_white_space(' '));
    assert forall|i: int| 0 <= i < row.len() implies row[i] != '\n' by {
        if i < id.len() {
            assert(row[i] == id[i]);
        } else if i > id.len() {
            assert(row[i] == stamp[i - id.len() - 1]);
        }
    }
    assert(row.last() == stamp.last());
    assert(row[0] == id[0]);
    lemma_lines_of_concat(history, row + feed);
    lemma_lines_of_one(row);
    let lines = lines_of(history + (row + feed));
    assert(history + record_line(id, stamp) == history + (row + feed));
    assert(lines == lines_of(history).push(row));
    assert(lines.drop_last() == lines_of(history));
    assert(lines.last() == row);
    lemma_trim_of_solid(row);
    assert forall|j: int| 0 <= j < id.len() implies row[j] != ' ' by {
        assert(row[j] == id[j]);
    }
    assert(row[id.len() as int] == ' ');
    lemma_first_index_unique(row, ' ', id.len() as int);
    assert(row.skip(id.len() as int + 1) == stamp);
    assert(row.take(id.len() as int) == id);
    lemma_first_index_unique(stamp, ' ', stamp.len() as int);
    assert(record_parts(row) == Some((id, stamp)));
}

/// Adds to the history the record of the migration `id` with `stamp` as the text
/// of its timestamp. What the history held stays as it was, in front of the
/// record, and the record is read behind the records that it held: see
/// `lemma_appended_record_is_read`.
pub fn append_record(history: &mut String, id: &str, stamp: &str)
    ensures
        final(history)@ == old(history)@ + record_line(id@, stamp@),
        ends_its_lines(old(history)@) && is_token(id@) && is_token(stamp@) ==> history_of(
            Some(final(history)@),
        ) == with_record(
            history_of(Some(old(history)@)),
            record_of(id@, stamp@, instant_of(stamp@)),
        ),
{
    history.append(id);
    history.append(" ");
    history.append(stamp);
    history.append("\n");
    proof {
        assert(history@ == old(history)@ + record_line(id@, stamp@));
        if ends_its_lines(old(history)@) && is_token(id@) && is_token(stamp@) {
            lemma_appended_record_is_read(old(history)@, id@, stamp@);
        }
    }
}

/// Adds to the history the record that the migration `id` was applied at
/// `applied_at`. What the history held stays as it was, in front of the record.
/// From a history that ends its lines, a record with an id that is a token and a
/// timestamp in a year of four digits is read again behind the records that the
/// history held.
pub fn append_history(history: &mut String, id: &str, applied_at: &Timestamp)
    ensures
        final(history)@ == old(history)@ + history_line(id@, applied_at@),
        ends_its_lines(old(history)@) && is_token(id@) && has_four_digit_year(applied_at@.secs)
            ==> history_of(Some(final(history)@)) == with_record(
            history_of(Some(old(history)@)),
            Ok(AppliedMigrationView { id: id@, applied_at: applied_at@ }),
        ),
{
    let stamp = applied_at.to_rfc3339();
    append_record(history, id, stamp.as_str());
}

} // verus!
