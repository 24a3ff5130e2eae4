//! The baseline of a migrations directory: the version at or before which every
//! migration counts as applied, so that their files may go.

use crate::baseline::round_trip::{
    can_be_read_back, is_kept_baseline, lemma_baseline_round_trip, lemma_token_is_field_value,
    lemma_version_is_field_value, read_as,
};
use crate::error::{ParseFailure, ParseFailureView, ValidationError, ValidationErrorView};
use crate::state::{has_record, is_applied};
use crate::text::{
    chars_of, drop_white, join_lines, join_of, lemma_deep_view_push, lemma_lex_lt_asymmetric,
    lemma_lex_lt_irreflexive, lemma_lex_lt_total, less, less_or_same, lex_le, lex_lt, lines_of,
    same_chars, skip_white, split_lines, starts_with, string_of, trim_bounds, trim_end_of, trim_of,
    trim_start_of,
};
use crate::time::{instant_of, text_of, Instant, Timestamp};
use crate::version::is_version_format;
use crate::{AppliedMigration, AppliedMigrationView, Migration, MigrationView};
use vstd::prelude::*;
use vstd::string::{StrSliceExecFns, StringExecFns};

pub mod round_trip;

verus! {

/// A baseline: every migration with a version at or before `version` counts as
/// applied, whether or not its file is still there.
#[derive(Debug)]
pub struct Baseline {
    /// The version code, such as `1fb2g`.
    pub version: String,
    /// When the baseline was set.
    pub created: Timestamp,
    /// What the migrations below it did, in words.
    pub summary: Option<String>,
}

/// What a `Baseline` holds.
pub struct BaselineView {
    pub version: Seq<char>,
    pub created: Instant,
    pub summary: Option<Seq<char>>,
}

impl View for Baseline {
    type V = BaselineView;

    open spec fn view(&self) -> BaselineView {
        BaselineView {
            version: self.version@,
            created: self.created@,
            summary: self.summary.deep_view(),
        }
    }
}

impl DeepView for Baseline {
    type V = BaselineView;

    open spec fn deep_view(&self) -> BaselineView {
        self@
    }
}

impl Clone for Baseline {
    fn clone(&self) -> (r: Baseline)
        ensures
            r@ == self@,
    {
        let summary = match &self.summary {
            Some(text) => Some(text.clone()),
            None => None,
        };
        Baseline { version: self.version.clone(), created: self.created, summary }
    }
}

/// Whether the version `v1` is `v2` or comes before it.
pub fn version_lte(v1: &str, v2: &str) -> (r: bool)
    ensures
        r == lex_le(v1@, v2@),
{
    let a = chars_of(v1);
    let b = chars_of(v2);
    less_or_same(&a, &b)
}

/// Whether a migration of `migrations` has the version `version`.
pub open spec fn has_version(migrations: Seq<MigrationView>, version: Seq<char>) -> bool {
    exists|i: int| 0 <= i < migrations.len() && (#[trigger] migrations[i]).version == version
}

/// Whether a baseline at `version` covers the migration and no record says that
/// it was applied.
pub open spec fn is_unapplied_below(
    m: MigrationView,
    version: Seq<char>,
    applied: Seq<AppliedMigrationView>,
) -> bool {
    lex_le(m.version, version) && !is_applied(applied, m.id)
}

/// The first migration that a baseline at `version` would cover although it was
/// not applied, if there is one.
pub open spec fn first_unapplied(
    available: Seq<MigrationView>,
    version: Seq<char>,
    applied: Seq<AppliedMigrationView>,
) -> Option<MigrationView>
    decreases available.len(),
{
    if available.len() == 0 {
        None
    } else if is_unapplied_below(available[0], version, applied) {
        Some(available[0])
    } else {
        first_unapplied(available.skip(1), version, applied)
    }
}

/// Whether a baseline may be set at `version`, and if not, why not. It may where
/// a migration has that version, no baseline exists at a later version, and every
/// migration at or before the version was applied. Of several reasons that
/// speak against it the first of these three is given.
pub open spec fn validation(
    version: Seq<char>,
    available: Seq<MigrationView>,
    applied: Seq<AppliedMigrationView>,
    existing: Option<BaselineView>,
) -> Result<(), ValidationErrorView> {
    if !has_version(available, version) {
        Err(ValidationErrorView::NoSuchVersion { version })
    } else if existing is Some && lex_lt(version, existing->0.version) {
        Err(ValidationErrorView::BackwardMove { from: existing->0.version, to: version })
    } else {
        match first_unapplied(available, version, applied) {
            Some(m) => Err(ValidationErrorView::Unapplied { id: m.id }),
            None => Ok(()),
        }
    }
}

/// `first_unapplied` is the first of the migrations that a baseline would cover
/// although it was not applied, and there is none where it is `None`.
pub proof fn lemma_first_unapplied(
    available: Seq<MigrationView>,
    version: Seq<char>,
    applied: Seq<AppliedMigrationView>,
)
    ensures
        match first_unapplied(available, version, applied) {
            Some(m) => exists|i: int|
                0 <= i < available.len() && #[trigger] available[i] == m && is_unapplied_below(
                    m,
                    version,
                    applied,
                ),
            None => forall|i: int|
                0 <= i < available.len() ==> !is_unapplied_below(
                    #[trigger] available[i],
                    version,
                    applied,
                ),
        },
    decreases available.len(),
{
    if available.len() == 0 {
    } else if is_unapplied_below(available[0], version, applied) {
    } else {
        let rest = available.skip(1);
        lemma_first_unapplied(rest, version, applied);
        match first_unapplied(rest, version, applied) {
            Some(m) => {
                let i = choose|i: int|
                    0 <= i < rest.len() && #[trigger] rest[i] == m && is_unapplied_below(
                        m,
                        version,
                        applied,
                    );
                assert(available[i + 1] == m);
            },
            None => {
                assert forall|i: int| 0 <= i < available.len() implies !is_unapplied_below(
                    #[trigger] available[i],
                    version,
                    applied,
                ) by {
                    if i > 0 {
                        assert(available[i] == rest[i - 1]);
                    }
                }
            },
        }
    }
}

/// A baseline may be set at a version just where a migration has that version,
/// the baseline does not move backward, and every migration at or before the
/// version was applied.
pub proof fn lemma_validation(
    version: Seq<char>,
    available: Seq<MigrationView>,
    applied: Seq<AppliedMigrationView>,
    existing: Option<BaselineView>,
)
    ensures
        validation(version, available, applied, existing) is Ok <==> {
            &&& has_version(available, version)
            &&& existing matches Some(b) ==> lex_le(b.version, version)
            &&& forall|i: int|
                0 <= i < available.len() && lex_le((#[trigger] available[i]).version, version)
                    ==> is_applied(applied, available[i].id)
        },
{
    lemma_first_unapplied(available, version, applied);
    if let Some(b) = existing {
        lemma_lex_lt_total(version, b.version);
        if lex_lt(version, b.version) {
            if b.version == version {
                lemma_lex_lt_irreflexive(version);
            } else if lex_lt(b.version, version) {
                lemma_lex_lt_asymmetric(version, b.version);
            }
        }
    }
    if first_unapplied(available, version, applied) is None {
        assert forall|i: int|
            0 <= i < available.len() && lex_le(
                (#[trigger] available[i]).version,
                version,
            ) implies is_applied(applied, available[i].id) by {
            assert(!is_unapplied_below(available[i], version, applied));
        }
    }
}

fn any_with_version(available: &[Migration], version: &str) -> (r: bool)
    ensures
        r == has_version(available.deep_view(), version@),
{
    let wanted = chars_of(version);
    let mut i: usize = 0;
    while i < available.len()
        invariant
            i <= available.len(),
            wanted@ == version@,
            forall|j: int| 0 <= j < i ==> (#[trigger] available.deep_view()[j]).version != version@,
        decreases available.len() - i,
    {
        let have = chars_of(available[i].version.as_str());
        if same_chars(&have, &wanted) {
            assert(available.deep_view()[i as int].version == version@);
            return true;
        }
        i = i + 1;
    }
    false
}

/// Checks that a baseline may be set at `version`. Nothing is changed by it.
pub fn validate_baseline(
    version: &str,
    available: &[Migration],
    applied: &[AppliedMigration],
    existing_baseline: Option<&Baseline>,
) -> (r: Result<(), ValidationError>)
    ensures
        match r {
            Ok(_) => validation(
                version@,
                available.deep_view(),
                applied.deep_view(),
                existing_baseline.deep_view(),
            ) == Ok::<(), ValidationErrorView>(()),
            Err(e) => validation(
                version@,
                available.deep_view(),
                applied.deep_view(),
                existing_baseline.deep_view(),
            ) == Err::<(), ValidationErrorView>(e@),
        },
{
    if !any_with_version(available, version) {
        return Err(ValidationError::NoSuchVersion { version: version.to_owned() });
    }
    let wanted = chars_of(version);
    if let Some(existing) = existing_baseline {
        let at = chars_of(existing.version.as_str());
        if less(&wanted, &at) {
            return Err(
                ValidationError::BackwardMove {
                    from: existing.version.clone(),
                    to: version.to_owned(),
                },
            );
        }
    }
    let mut i: usize = 0;
    assert(available.deep_view().skip(0) == available.deep_view());
    while i < available.len()
        invariant
            i <= available.len(),
            wanted@ == version@,
            has_version(available.deep_view(), version@),
            existing_baseline matches Some(b) ==> !lex_lt(version@, b@.version),
            first_unapplied(available.deep_view(), version@, applied.deep_view())
                == first_unapplied(
                available.deep_view().skip(i as int),
                version@,
                applied.deep_view(),
            ),
        decreases available.len() - i,
    {
        let m = &available[i];
        let have = chars_of(m.version.as_str());
        proof {
            let rest = available.deep_view().skip(i as int);
            assert(rest[0] == m@);
            assert(rest.skip(1) == available.deep_view().skip(i + 1));
        }
        if less_or_same(&have, &wanted) && !has_record(applied, &m.id) {
            return Err(ValidationError::Unapplied { id: m.id.clone() });
        }
        i = i + 1;
    }
    Ok(())
}

/// The migrations that a baseline at `version` covers: those with a version at
/// or before it.
pub open spec fn covered(available: Seq<MigrationView>, version: Seq<char>) -> Seq<
    MigrationView,
> {
    available.filter(|m: MigrationView| lex_le(m.version, version))
}

/// The migrations whose files a baseline at `baseline_version` lets go, in the
/// order of `available`.
pub fn baselined_migrations<'a>(baseline_version: &str, available: &'a [Migration]) -> (r: Vec<
    &'a Migration,
>)
    ensures
        r.deep_view() == covered(available.deep_view(), baseline_version@),
{
    let wanted = chars_of(baseline_version);
    let mut r: Vec<&'a Migration> = Vec::new();
    let mut i: usize = 0;
    let ghost pred = |m: MigrationView| lex_le(m.version, baseline_version@);
    proof {
        reveal(Seq::filter);
        assert(available.deep_view().take(0) == Seq::<MigrationView>::empty());
        assert(r.deep_view() == Seq::<MigrationView>::empty());
    }
    while i < available.len()
        invariant
            i <= available.len(),
            wanted@ == baseline_version@,
            pred == (|m: MigrationView| lex_le(m.version, baseline_version@)),
            r.deep_view() == available.deep_view().take(i as int).filter(pred),
        decreases available.len() - i,
    {
        let m = &available[i];
        let have = chars_of(m.version.as_str());
        proof {
            reveal(Seq::filter);
            let upto = available.deep_view().take(i + 1);
            assert(upto.drop_last() == available.deep_view().take(i as int));
            assert(upto.last() == m@);
        }
        if less_or_same(&have, &wanted) {
            let ghost before = r.deep_view();
            r.push(m);
            assert(r.deep_view() == before.push(m@));
        }
        i = i + 1;
    }
    assert(available.deep_view().take(available.len() as int) == available.deep_view());
    r
}

/// What a line of the baseline file says.
#[derive(Debug)]
pub enum Line {
    /// `version:` and a version code.
    Version(String),
    /// `created:` and the text of a timestamp.
    Created(String),
    /// `summary: |`, after which the lines of the summary follow.
    SummaryBlock,
    /// `summary:` and a summary of one line.
    Summary(String),
    /// One more line of the summary that is being read.
    Continuation(String),
    /// Nothing.
    Other,
}

/// What a `Line` holds.
pub enum LineView {
    Version(Seq<char>),
    Created(Seq<char>),
    SummaryBlock,
    Summary(Seq<char>),
    Continuation(Seq<char>),
    Other,
}

impl View for Line {
    type V = LineView;

    open spec fn view(&self) -> LineView {
        match self {
            Line::Version(text) => LineView::Version(text@),
            Line::Created(text) => LineView::Created(text@),
            Line::SummaryBlock => LineView::SummaryBlock,
            Line::Summary(text) => LineView::Summary(text@),
            Line::Continuation(text) => LineView::Continuation(text@),
            Line::Other => LineView::Other,
        }
    }
}

/// What a line adds to the summary that is being read: the line without the two
/// spaces that it begins with, or without the white space that it begins with
/// after its one space. `None` for a line that is not empty and begins with no
/// space: it ends the summary.
pub open spec fn continuation(line: Seq<char>) -> Option<Seq<char>> {
    if line.len() >= 2 && line[0] == ' ' && line[1] == ' ' {
        Some(line.skip(2))
    } else if line.len() == 0 {
        Some(line)
    } else if line[0] == ' ' {
        Some(trim_start_of(line))
    } else {
        None
    }
}

/// What follows the key of a field in its line, trimmed.
pub open spec fn value_after(line: Seq<char>, key: Seq<char>) -> Seq<char> {
    trim_of(line.skip(key.len() as int))
}

/// What a line says that is not part of a summary.
pub open spec fn field(line: Seq<char>) -> LineView {
    if "version:"@.is_prefix_of(line) {
        LineView::Version(value_after(line, "version:"@))
    } else if "created:"@.is_prefix_of(line) {
        LineView::Created(value_after(line, "created:"@))
    } else if "summary:"@.is_prefix_of(line) {
        let rest = value_after(line, "summary:"@);
        if rest == seq!['|'] {
            LineView::SummaryBlock
        } else if rest.len() > 0 {
            LineView::Summary(rest)
        } else {
            LineView::Other
        }
    } else {
        LineView::Other
    }
}

/// What a line says; `in_block` tells whether a summary is being read.
pub open spec fn line_kind(in_block: bool, line: Seq<char>) -> LineView {
    if in_block && continuation(line) is Some {
        LineView::Continuation(continuation(line)->0)
    } else {
        field(line)
    }
}

/// The length of `key` where `line` begins with it.
fn key_len(line: &Vec<char>, key: &str) -> (r: Option<usize>)
    ensures
        match r {
            Some(n) => key@.is_prefix_of(line@) && n == key@.len() && n <= line.len(),
            None => !key@.is_prefix_of(line@),
        },
{
    if starts_with(line, key) {
        Some(key.unicode_len())
    } else {
        None
    }
}

/// `line[from..]`, trimmed, as a string.
fn value_from(line: &Vec<char>, from: usize) -> (r: String)
    requires
        from <= line.len(),
    ensures
        r@ == trim_of(line@.skip(from as int)),
{
    assert(line@.skip(from as int) == line@.subrange(from as int, line.len() as int));
    let (a, b) = trim_bounds(line, from, line.len());
    string_of(line, a, b)
}

fn kind_of(in_block: bool, line: &Vec<char>) -> (r: Line)
    ensures
        r@ == line_kind(in_block, line@),
{
    let n = line.len();
    if in_block {
        if n >= 2 && line[0] == ' ' && line[1] == ' ' {
            assert(line@.skip(2) == line@.subrange(2, n as int));
            return Line::Continuation(string_of(line, 2, n));
        } else if n == 0 {
            assert(line@.subrange(0, 0) == line@);
            return Line::Continuation(string_of(line, 0, 0));
        } else if line[0] == ' ' {
            assert(line@.subrange(0, n as int) == line@);
            let a = skip_white(line, 0, n);
            return Line::Continuation(string_of(line, a, n));
        }
    }
    if let Some(k) = key_len(line, "version:") {
        return Line::Version(value_from(line, k));
    }
    if let Some(k) = key_len(line, "created:") {
        return Line::Created(value_from(line, k));
    }
    if let Some(k) = key_len(line, "summary:") {
        let rest = value_from(line, k);
        let chars = chars_of(rest.as_str());
        if chars.len() == 1 && chars[0] == '|' {
            assert(chars@ == seq!['|']);
            return Line::SummaryBlock;
        } else if chars.len() > 0 {
            return Line::Summary(rest);
        } else {
            return Line::Other;
        }
    }
    Line::Other
}

/// What a line of the baseline file says; `in_block` tells whether a summary is
/// being read.
pub fn read_line(in_block: bool, line: &str) -> (r: Line)
    ensures
        r@ == line_kind(in_block, line@),
{
    let chars = chars_of(line);
    kind_of(in_block, &chars)
}

/// The summary that the lines of a block make: the lines, each in a line of its
/// own, without the white space at the end of the last.
pub open spec fn block_text(block: Seq<Seq<char>>) -> Seq<char> {
    trim_end_of(join_of(block))
}

/// What has been read of a baseline file.
pub struct ScannerView {
    pub version: Option<Seq<char>>,
    pub created: Option<Instant>,
    pub summary: Option<Seq<char>>,
    /// Whether a summary is being read.
    pub in_block: bool,
    /// The lines of the summary that is being read.
    pub block: Seq<Seq<char>>,
}

/// Before any line was read.
pub open spec fn nothing_read() -> ScannerView {
    ScannerView {
        version: None,
        created: None,
        summary: None,
        in_block: false,
        block: Seq::empty(),
    }
}

/// What has been read once the summary that was being read has ended.
pub open spec fn block_closed(s: ScannerView) -> ScannerView {
    if s.in_block {
        ScannerView {
            summary: Some(block_text(s.block)),
            in_block: false,
            block: Seq::empty(),
            ..s
        }
    } else {
        s
    }
}

/// What has been read after one more line; `created` is what the text of a
/// `created` field was read as.
pub open spec fn advanced(s: ScannerView, line: LineView, created: Option<Instant>) -> Result<
    ScannerView,
    ParseFailureView,
> {
    match line {
        LineView::Continuation(piece) => if s.in_block {
            Ok(ScannerView { block: s.block.push(piece), ..s })
        } else {
            Ok(s)
        },
        LineView::Version(text) => Ok(ScannerView { version: Some(text), ..block_closed(s) }),
        LineView::Created(text) => match created {
            Some(at) => Ok(ScannerView { created: Some(at), ..block_closed(s) }),
            None => Err(ParseFailureView::BaselineTimestamp { text }),
        },
        LineView::SummaryBlock => Ok(ScannerView { in_block: true, ..block_closed(s) }),
        LineView::Summary(text) => Ok(ScannerView { summary: Some(text), ..block_closed(s) }),
        LineView::Other => Ok(block_closed(s)),
    }
}

/// The baseline that was read, once the file has ended.
pub open spec fn finished(s: ScannerView) -> Result<BaselineView, ParseFailureView> {
    let summary = if s.in_block && s.block.len() > 0 {
        Some(block_text(s.block))
    } else {
        s.summary
    };
    if s.version is None {
        Err(ParseFailureView::MissingVersion)
    } else if s.created is None {
        Err(ParseFailureView::MissingCreated)
    } else {
        Ok(BaselineView { version: s.version->0, created: s.created->0, summary })
    }
}

/// What the text of a `created` field is read as; `None` for any other line.
pub open spec fn created_reading(line: LineView) -> Option<Instant> {
    match line {
        LineView::Created(text) => instant_of(text),
        _ => None,
    }
}

/// What has been read after these lines.
pub open spec fn scanned(lines: Seq<Seq<char>>) -> Result<ScannerView, ParseFailureView>
    decreases lines.len(),
{
    if lines.len() == 0 {
        Ok(nothing_read())
    } else {
        match scanned(lines.drop_last()) {
            Err(e) => Err(e),
            Ok(s) => {
                let line = line_kind(s.in_block, lines.last());
                advanced(s, line, created_reading(line))
            },
        }
    }
}

/// The baseline that a baseline file with this content holds.
pub open spec fn parsed_baseline(content: Seq<char>) -> Result<BaselineView, ParseFailureView> {
    match scanned(lines_of(content)) {
        Ok(s) => finished(s),
        Err(e) => Err(e),
    }
}

/// The reader of a baseline file: it is given the file line by line, and keeps
/// what the lines said.
pub struct Scanner {
    version: Option<String>,
    created: Option<Timestamp>,
    summary: Option<String>,
    in_block: bool,
    block: Vec<Vec<char>>,
}

impl View for Scanner {
    type V = ScannerView;

    closed spec fn view(&self) -> ScannerView {
        ScannerView {
            version: self.version.deep_view(),
            created: self.created.deep_view(),
            summary: self.summary.deep_view(),
            in_block: self.in_block,
            block: self.block.deep_view(),
        }
    }
}

impl Scanner {
    /// A reader that has read nothing.
    pub fn new() -> (r: Scanner)
        ensures
            r@ == nothing_read(),
    {
        let r = Scanner {
            version: None,
            created: None,
            summary: None,
            in_block: false,
            block: Vec::new(),
        };
        assert(r.block.deep_view() == Seq::<Seq<char>>::empty());
        r
    }

    /// Whether a summary is being read.
    pub fn in_block(&self) -> (r: bool)
        ensures
            r == self@.in_block,
    {
        self.in_block
    }

    fn close_block(&mut self)
        ensures
            final(self)@ == block_closed(old(self)@),
    {
        if self.in_block {
            let joined = join_lines(&self.block);
            assert(joined@.subrange(0, joined.len() as int) == joined@);
            let end = drop_white(&joined, 0, joined.len());
            self.summary = Some(string_of(&joined, 0, end));
            self.in_block = false;
            self.block = Vec::new();
            assert(self.block.deep_view() == Seq::<Seq<char>>::empty());
        }
    }

    /// Takes one more line; `created` is what the text of a `created` field was
    /// read as. After a failure the reader is of no more use.
    pub fn advance(&mut self, line: Line, created: Option<Timestamp>) -> (r: Result<
        (),
        ParseFailure,
    >)
        ensures
            match r {
                Ok(_) => advanced(old(self)@, line@, created.deep_view()) == Ok::<
                    ScannerView,
                    ParseFailureView,
                >(final(self)@),
                Err(e) => advanced(old(self)@, line@, created.deep_view()) == Err::<
                    ScannerView,
                    ParseFailureView,
                >(e@),
            },
    {
        match line {
            Line::Continuation(piece) => {
                if self.in_block {
                    let chars = chars_of(piece.as_str());
                    let ghost before = self.block;
                    self.block.push(chars);
                    proof {
                        lemma_deep_view_push(before, self.block, chars);
                    }
                }
            },
            Line::Version(text) => {
                self.close_block();
                self.version = Some(text);
            },
            Line::Created(text) => {
                match created {
                    Some(at) => {
                        self.close_block();
                        self.created = Some(at);
                    },
                    None => {
                        return Err(ParseFailure::BaselineTimestamp { text });
                    },
                }
            },
            Line::SummaryBlock => {
                self.close_block();
                self.in_block = true;
            },
            Line::Summary(text) => {
                self.close_block();
                self.summary = Some(text);
            },
            Line::Other => {
                self.close_block();
            },
        }
        Ok(())
    }

    /// The baseline that was read, once the file has ended.
    pub fn finish(self) -> (r: Result<Baseline, ParseFailure>)
        ensures
            match r {
                Ok(b) => finished(self@) == Ok::<BaselineView, ParseFailureView>(b@),
                Err(e) => finished(self@) == Err::<BaselineView, ParseFailureView>(e@),
            },
    {
        let summary = if self.in_block && self.block.len() > 0 {
            let joined = join_lines(&self.block);
            assert(joined@.subrange(0, joined.len() as int) == joined@);
            let end = drop_white(&joined, 0, joined.len());
            Some(string_of(&joined, 0, end))
        } else {
            self.summary
        };
        let version = match self.version {
            Some(version) => version,
            None => {
                return Err(ParseFailure::MissingVersion);
            },
        };
        let created = match self.created {
            Some(created) => created,
            None => {
                return Err(ParseFailure::MissingCreated);
            },
        };
        Ok(Baseline { version, created, summary })
    }
}

/// A file that fails within its first `k` lines fails as a whole, and in the
/// same way.
pub proof fn lemma_scan_fails(lines: Seq<Seq<char>>, k: int)
    requires
        0 <= k <= lines.len(),
        scanned(lines.take(k)) is Err,
    ensures
        scanned(lines) == scanned(lines.take(k)),
    decreases lines.len() - k,
{
    if k < lines.len() {
        assert(lines.take(k + 1).drop_last() == lines.take(k));
        lemma_scan_fails(lines, k + 1);
    } else {
        assert(lines.take(k) == lines);
    }
}

/// The baseline that a baseline file with this content holds. The file must give
/// a version and a timestamp; where it gives one of them twice, the last counts.
pub fn parse_baseline(content: &str) -> (r: Result<Baseline, ParseFailure>)
    ensures
        match r {
            Ok(b) => parsed_baseline(content@) == Ok::<BaselineView, ParseFailureView>(b@),
            Err(e) => parsed_baseline(content@) == Err::<BaselineView, ParseFailureView>(e@),
        },
{
    let chars = chars_of(content);
    let lines = split_lines(&chars);
    let mut scanner = Scanner::new();
    let mut i: usize = 0;
    assert(lines.deep_view().take(0) == Seq::<Seq<char>>::empty());
    while i < lines.len()
        invariant
            i <= lines.len(),
            lines.deep_view() == lines_of(content@),
            scanned(lines.deep_view().take(i as int)) == Ok::<ScannerView, ParseFailureView>(
                scanner@,
            ),
        decreases lines.len() - i,
    {
        proof {
            let upto = lines.deep_view().take(i + 1);
            assert(upto.drop_last() == lines.deep_view().take(i as int));
            assert(upto.last() == lines[i as int]@);
        }
        let line = kind_of(scanner.in_block(), &lines[i]);
        let created = match &line {
            Line::Created(text) => Timestamp::parse_rfc3339(text.as_str()),
            _ => None,
        };
        match scanner.advance(line, created) {
            Ok(_) => {},
            Err(e) => {
                proof {
                    lemma_scan_fails(lines.deep_view(), i + 1);
                }
                return Err(e);
            },
        }
        i = i + 1;
    }
    assert(lines.deep_view().take(lines.len() as int) == lines.deep_view());
    scanner.finish()
}

/// The baseline of a directory. `content` is what its baseline file holds, `None`
/// where there is no such file: then there is no baseline.
pub open spec fn baseline_of(content: Option<Seq<char>>) -> Result<
    Option<BaselineView>,
    ParseFailureView,
> {
    match content {
        None => Ok(None),
        Some(text) => match parsed_baseline(text) {
            Ok(b) => Ok(Some(b)),
            Err(e) => Err(e),
        },
    }
}

/// The baseline of a directory. `content` is what its baseline file holds, `None`
/// where there is no such file.
pub fn read_baseline(content: Option<&str>) -> (r: Result<Option<Baseline>, ParseFailure>)
    ensures
        match r {
            Ok(b) => baseline_of(content.deep_view()) == Ok::<
                Option<BaselineView>,
                ParseFailureView,
            >(b.deep_view()),
            Err(e) => baseline_of(content.deep_view()) == Err::<
                Option<BaselineView>,
                ParseFailureView,
            >(e@),
        },
{
    match content {
        None => Ok(None),
        Some(text) => match parse_baseline(text) {
            Ok(b) => Ok(Some(b)),
            Err(e) => Err(e),
        },
    }
}

/// Whether a line holds nothing but white space.
pub open spec fn is_blank(line: Seq<char>) -> bool {
    trim_start_of(line).len() == 0
}

/// The lines without the blank lines at their end.
pub open spec fn without_blank_tail(lines: Seq<Seq<char>>) -> Seq<Seq<char>>
    decreases lines.len(),
{
    if lines.len() > 0 && is_blank(lines.last()) {
        without_blank_tail(lines.drop_last())
    } else {
        lines
    }
}

/// The lines as a block: two spaces before each, a line feed behind each.
pub open spec fn indented(lines: Seq<Seq<char>>) -> Seq<char>
    decreases lines.len(),
{
    if lines.len() == 0 {
        Seq::empty()
    } else {
        indented(lines.drop_last()) + "  "@ + lines.last() + "\n"@
    }
}

/// The content of a baseline file with this version, this text for its
/// timestamp and this summary. A summary is written as a block, whatever the
/// number of its lines, and without the blank lines at its end.
pub open spec fn rendered_with(
    version: Seq<char>,
    created: Seq<char>,
    summary: Option<Seq<char>>,
) -> Seq<char> {
    "version: "@ + version + "\n"@ + "created: "@ + created + "\n"@ + match summary {
        Some(text) => "summary: |\n"@ + indented(without_blank_tail(lines_of(text))),
        None => Seq::empty(),
    }
}

/// The content of the baseline file for a baseline.
pub open spec fn rendered(baseline: BaselineView) -> Seq<char> {
    rendered_with(baseline.version, text_of(baseline.created), baseline.summary)
}

/// The number of `lines` that are left without the blank lines at their end.
fn kept_lines(lines: &Vec<Vec<char>>) -> (n: usize)
    ensures
        n <= lines.len(),
        lines.deep_view().take(n as int) == without_blank_tail(lines.deep_view()),
{
    let mut n: usize = lines.len();
    assert(lines.deep_view().take(n as int) == lines.deep_view());
    while n > 0
        invariant
            n <= lines.len(),
            without_blank_tail(lines.deep_view()) == without_blank_tail(
                lines.deep_view().take(n as int),
            ),
        decreases n,
    {
        let line = &lines[n - 1];
        assert(line@.subrange(0, line.len() as int) == line@);
        let upto = skip_white(line, 0, line.len());
        proof {
            let all = lines.deep_view().take(n as int);
            assert(all.last() == line@);
            assert(all.drop_last() == lines.deep_view().take(n - 1));
        }
        if upto < line.len() {
            return n;
        }
        n = n - 1;
    }
    n
}

/// Writes into `out` the baseline file with this version, with `created` as the
/// text of its timestamp, and with this summary. What `out` held is gone. What
/// was written is read back as it was, where it can be: see `can_be_read_back`.
pub fn render_baseline(out: &mut String, version: &str, created: &str, summary: Option<&str>)
    ensures
        final(out)@ == rendered_with(version@, created@, summary.deep_view()),
        can_be_read_back(version@, created@, summary.deep_view()) ==> parsed_baseline(final(out)@)
            == read_as(version@, created@, summary.deep_view()),
{
    let mut text = "version: ".to_owned();
    text.append(version);
    text.append("\n");
    text.append("created: ");
    text.append(created);
    text.append("\n");
    if let Some(summary) = summary {
        text.append("summary: |\n");
        let chars = chars_of(summary);
        let lines = split_lines(&chars);
        let kept = kept_lines(&lines);
        let ghost head = text@;
        let ghost block = lines.deep_view().take(kept as int);
        let mut i: usize = 0;
        assert(block.take(0) == Seq::<Seq<char>>::empty());
        while i < kept
            invariant
                i <= kept <= lines.len(),
                block == lines.deep_view().take(kept as int),
                text@ == head + indented(block.take(i as int)),
            decreases kept - i,
        {
            let line = &lines[i];
            assert(line@.subrange(0, line.len() as int) == line@);
            let piece = string_of(line, 0, line.len());
            proof {
                let upto = block.take(i + 1);
                assert(upto.drop_last() == block.take(i as int));
                assert(upto.last() == line@);
            }
            text.append("  ");
            text.append(piece.as_str());
            text.append("\n");
            i = i + 1;
        }
        assert(block.take(kept as int) == block);
    }
    *out = text;
    proof {
        assert(out@ == rendered_with(version@, created@, summary.deep_view()));
        if can_be_read_back(version@, created@, summary.deep_view()) {
            lemma_baseline_round_trip(version@, created@, summary.deep_view());
        }
    }
}

/// Writes the baseline file for `baseline` into `out`. What `out` held is gone.
/// A baseline that is kept is read back from what was written as the same
/// baseline: see `is_kept_baseline`.
pub fn write_baseline(out: &mut String, baseline: &Baseline)
    ensures
        final(out)@ == rendered(baseline@),
        can_be_read_back(baseline@.version, text_of(baseline@.created), baseline@.summary)
            ==> parsed_baseline(final(out)@) == read_as(
            baseline@.version,
            text_of(baseline@.created),
            baseline@.summary,
        ),
        is_kept_baseline(baseline@) ==> parsed_baseline(final(out)@) == Ok::<
            BaselineView,
            ParseFailureView,
        >(baseline@),
        is_kept_baseline(baseline@) ==> baseline_of(Some(final(out)@)) == Ok::<
            Option<BaselineView>,
            ParseFailureView,
        >(Some(baseline@)),
{
    let stamp = baseline.created.to_rfc3339();
    let summary = match &baseline.summary {
        Some(text) => Some(text.as_str()),
        None => None,
    };
    proof {
        if is_kept_baseline(baseline@) {
            lemma_token_is_field_value(stamp@);
            if is_version_format(baseline@.version) {
                lemma_version_is_field_value(baseline@.version);
            }
        }
    }
    render_baseline(out, baseline.version.as_str(), stamp.as_str(), summary);
}

} // verus!
