//! What is read from a baseline file that was written.

use crate::baseline::{
    block_text, field, indented, is_blank, lemma_scan_fails, line_kind, nothing_read,
    parsed_baseline, rendered_with, scanned, value_after, without_blank_tail, BaselineView,
    LineView, ScannerView,
};
use crate::error::ParseFailureView;
use crate::text::{
    chars_of, drop_white, ends_its_lines, find_char, index_of_char, is_ascii_alnum, is_one_line,
    is_token, is_white_space, join_of, lemma_index_of_char, lemma_lines_of_concat,
    lemma_lines_of_first, lemma_lines_of_one, lines_of, strip_cr, trim_bounds, trim_end_of,
    trim_of, trim_start_of,
};
use crate::time::{has_four_digit_year, instant_of, Instant};
use crate::version::is_version_format;
use vstd::prelude::*;

verus! {

/// The lines with two spaces before each.
pub open spec fn indent_each(lines: Seq<Seq<char>>) -> Seq<Seq<char>> {
    lines.map_values(|line: Seq<char>| "  "@ + line)
}

/// Whether a text ends with a carriage return.
pub open spec fn ends_with_cr(text: Seq<char>) -> bool {
    text.len() > 0 && text.last() == '\r'
}

/// Whether each of the lines can stand in a line of a file of its own and be read
/// from it as it is: it holds no line feed and ends with no carriage return.
pub open spec fn are_plain_lines(lines: Seq<Seq<char>>) -> bool {
    forall|i: int|
        0 <= i < lines.len() ==> is_one_line(#[trigger] lines[i]) && !ends_with_cr(lines[i])
}

/// The lines of a block that was written are the lines that it was written
/// from, each with its two spaces.
pub proof fn lemma_lines_of_indented(lines: Seq<Seq<char>>)
    requires
        are_plain_lines(lines),
    ensures
        lines_of(indented(lines)) == indent_each(lines),
        ends_its_lines(indented(lines)),
    decreases lines.len(),
{
    reveal_strlit("  ");
    reveal_strlit("\n");
    if lines.len() == 0 {
        assert(lines_of(indented(lines)) =~= indent_each(lines));
    } else {
        let head = lines.drop_last();
        let last = lines.last();
        assert(are_plain_lines(head)) by {
            assert forall|i: int| 0 <= i < head.len() implies is_one_line(#[trigger] head[i])
                && !ends_with_cr(head[i]) by {
                assert(head[i] == lines[i]);
            }
        }
        lemma_lines_of_indented(head);
        let row = "  "@ + last;
        assert(is_one_line(last) && !ends_with_cr(last)) by {
            assert(last == lines[lines.len() - 1]);
        }
        assert(is_one_line(row)) by {
            assert forall|i: int| 0 <= i < row.len() implies row[i] != '\n' by {
                if i >= 2 {
                    assert(row[i] == last[i - 2]);
                }
            }
        }
        assert(indented(lines) == indented(head) + (row + seq!['\n'])) by {
            assert("\n"@ =~= seq!['\n']);
            assert(indented(head) + "  "@ + last + "\n"@ =~= indented(head) + (row + seq!['\n']));
        }
        lemma_lines_of_concat(indented(head), row + seq!['\n']);
        lemma_lines_of_one(row);
        assert(strip_cr(row) == row) by {
            if last.len() > 0 {
                assert(row.last() == last.last());
            }
        }
        assert(indent_each(head) + seq![row] =~= indent_each(lines));
    }
}

/// A text without white space at either end stays as it is when a space is put
/// before it and the whole is trimmed.
pub proof fn lemma_trim_of_padded(text: Seq<char>)
    requires
        trim_of(text) == text,
    ensures
        trim_of(seq![' '] + text) == text,
{
    let padded = seq![' '] + text;
    assert(padded.skip(1) == text);
    assert(is_white_space(' '));
}

/// What stands behind a key and a space in a line is the value of the field.
pub proof fn lemma_value_after_key(key: Seq<char>, spaced: Seq<char>, text: Seq<char>)
    requires
        spaced == key + seq![' '],
        trim_of(text) == text,
    ensures
        key.is_prefix_of(spaced + text),
        value_after(spaced + text, key) == text,
{
    let line = spaced + text;
    assert(line.subrange(0, key.len() as int) =~= key);
    assert(line.skip(key.len() as int) =~= seq![' '] + text);
    lemma_trim_of_padded(text);
}

/// Whether a text can be the value of a field in a line of its own: it holds no
/// line feed, and no white space at either end.
pub open spec fn is_field_value(text: Seq<char>) -> bool {
    is_one_line(text) && trim_of(text) == text
}

/// A text without white space at its end does not end with a carriage return.
proof fn lemma_trimmed_end(text: Seq<char>)
    requires
        trim_end_of(text) == text,
    ensures
        text.len() > 0 ==> !is_white_space(text.last()),
        !ends_with_cr(text),
{
    if text.len() > 0 && is_white_space(text.last()) {
        lemma_trim_end_shorter(text.drop_last());
    }
}

/// Trimming the end makes a text no longer.
proof fn lemma_trim_end_shorter(text: Seq<char>)
    ensures
        trim_end_of(text).len() <= text.len(),
        trim_end_of(text).len() == text.len() ==> trim_end_of(text) == text,
    decreases text.len(),
{
    if text.len() > 0 && is_white_space(text.last()) {
        lemma_trim_end_shorter(text.drop_last());
    }
}

/// Trimming the start leaves the end of a text as it is, where something is left.
proof fn lemma_trim_start_keeps_end(text: Seq<char>)
    ensures
        trim_start_of(text).len() <= text.len(),
        trim_start_of(text).len() == text.len() ==> trim_start_of(text) == text,
        trim_start_of(text).len() > 0 ==> trim_start_of(text).last() == text.last(),
        text.len() > 0 && !is_white_space(text.last()) ==> trim_start_of(text).len() > 0,
    decreases text.len(),
{
    if text.len() > 0 && is_white_space(text[0]) {
        lemma_trim_start_keeps_end(text.skip(1));
        if text.skip(1).len() > 0 {
            assert(text.skip(1).last() == text.last());
        }
    }
}

/// A value of a field does not end with a carriage return.
proof fn lemma_field_value_end(text: Seq<char>)
    requires
        is_field_value(text),
    ensures
        !ends_with_cr(text),
{
    lemma_trim_start_keeps_end(text);
    let inner = trim_start_of(text);
    lemma_trim_end_shorter(inner);
    assert(inner == text);
    lemma_trimmed_end(text);
}

/// The lines of the summary as they are written: those of the text, without the
/// blank lines at their end.
pub open spec fn kept_lines(summary: Seq<char>) -> Seq<Seq<char>> {
    without_blank_tail(lines_of(summary))
}

/// The lines of a baseline file that was written.
pub open spec fn written_lines(
    version: Seq<char>,
    created: Seq<char>,
    summary: Option<Seq<char>>,
) -> Seq<Seq<char>> {
    seq!["version: "@ + version, "created: "@ + created] + match summary {
        Some(text) => seq!["summary: |"@] + indent_each(kept_lines(text)),
        None => Seq::empty(),
    }
}

/// The line of a field is one line, and does not end with a carriage return.
proof fn lemma_field_line(spaced: Seq<char>, text: Seq<char>)
    requires
        is_one_line(spaced),
        spaced.len() > 0,
        spaced.last() == ' ',
        is_field_value(text),
    ensures
        is_one_line(spaced + text),
        strip_cr(spaced + text) == spaced + text,
{
    let line = spaced + text;
    assert forall|i: int| 0 <= i < line.len() implies line[i] != '\n' by {
        if i >= spaced.len() {
            assert(line[i] == text[i - spaced.len()]);
        } else {
            assert(line[i] == spaced[i]);
        }
    }
    lemma_field_value_end(text);
    if text.len() > 0 {
        assert(line.last() == text.last());
    } else {
        assert(line.last() == spaced.last());
    }
}

/// A baseline file that was written has the lines that were written.
pub proof fn lemma_lines_of_rendered(
    version: Seq<char>,
    created: Seq<char>,
    summary: Option<Seq<char>>,
)
    requires
        is_field_value(version),
        is_field_value(created),
        summary matches Some(text) ==> are_plain_lines(kept_lines(text)),
    ensures
        lines_of(rendered_with(version, created, summary)) == written_lines(
            version,
            created,
            summary,
        ),
{
    reveal_strlit("version: ");
    reveal_strlit("created: ");
    reveal_strlit("summary: |");
    reveal_strlit("summary: |\n");
    reveal_strlit("\n");
    let feed = seq!['\n'];
    assert("\n"@ =~= feed);
    let h1 = "version: "@ + version;
    let h2 = "created: "@ + created;
    let tail = match summary {
        Some(text) => "summary: |\n"@ + indented(kept_lines(text)),
        None => Seq::empty(),
    };
    lemma_field_line("version: "@, version);
    lemma_field_line("created: "@, created);
    assert(rendered_with(version, created, summary) =~= h1 + feed + (h2 + feed + tail));
    lemma_lines_of_first(h1, h2 + feed + tail);
    lemma_lines_of_first(h2, tail);
    match summary {
        Some(text) => {
            let block = indented(kept_lines(text));
            let h3 = "summary: |"@;
            assert(tail =~= h3 + feed + block);
            assert(is_one_line(h3));
            assert(strip_cr(h3) == h3);
            lemma_lines_of_first(h3, block);
            lemma_lines_of_indented(kept_lines(text));
            assert(seq![h1] + (seq![h2] + (seq![h3] + indent_each(kept_lines(text))))
                =~= written_lines(version, created, summary));
        },
        None => {
            assert(lines_of(tail) == Seq::<Seq<char>>::empty());
            assert(seq![h1] + (seq![h2] + Seq::<Seq<char>>::empty()) =~= written_lines(
                version,
                created,
                summary,
            ));
        },
    }
}

/// What has been read once the two fields were read that every baseline file has.
pub open spec fn fields_read(version: Seq<char>, created: Instant) -> ScannerView {
    ScannerView { version: Some(version), created: Some(created), ..nothing_read() }
}

/// The line of the version is read as the version.
proof fn lemma_version_line(version: Seq<char>)
    requires
        is_field_value(version),
    ensures
        field("version: "@ + version) == LineView::Version(version),
{
    reveal_strlit("version: ");
    reveal_strlit("version:");
    assert("version: "@ =~= "version:"@ + seq![' ']);
    lemma_value_after_key("version:"@, "version: "@, version);
}

/// The line of the timestamp is read as the timestamp.
proof fn lemma_created_line(created: Seq<char>)
    requires
        is_field_value(created),
    ensures
        field("created: "@ + created) == LineView::Created(created),
{
    reveal_strlit("created: ");
    reveal_strlit("created:");
    reveal_strlit("version:");
    let line = "created: "@ + created;
    assert("created: "@ =~= "created:"@ + seq![' ']);
    lemma_value_after_key("created:"@, "created: "@, created);
    assert(!"version:"@.is_prefix_of(line)) by {
        if "version:"@.is_prefix_of(line) {
            assert(line.subrange(0, 8)[0] == line[0]);
        }
    }
}

/// The line that begins a summary is read as that.
proof fn lemma_summary_line()
    ensures
        field("summary: |"@) == LineView::SummaryBlock,
{
    reveal_strlit("summary: |");
    reveal_strlit("summary:");
    reveal_strlit("created:");
    reveal_strlit("version:");
    let line = "summary: |"@;
    let bar = seq!['|'];
    assert(trim_of(bar) == bar) by {
        assert(!is_white_space('|'));
        assert(trim_start_of(bar) == bar);
    }
    assert(line =~= "summary:"@ + seq![' '] + bar);
    lemma_value_after_key("summary:"@, "summary:"@ + seq![' '], bar);
    assert(!"version:"@.is_prefix_of(line)) by {
        if "version:"@.is_prefix_of(line) {
            assert(line.subrange(0, 8)[0] == line[0]);
        }
    }
    assert(!"created:"@.is_prefix_of(line)) by {
        if "created:"@.is_prefix_of(line) {
            assert(line.subrange(0, 8)[0] == line[0]);
        }
    }
}

/// A line of a block that was written is read as the line that was written.
proof fn lemma_block_line(line: Seq<char>)
    ensures
        line_kind(true, "  "@ + line) == LineView::Continuation(line),
{
    reveal_strlit("  ");
    let row = "  "@ + line;
    assert(row.skip(2) =~= line);
}

/// What is read from the first two lines of a baseline file that was written.
proof fn lemma_scan_fields(version: Seq<char>, created: Seq<char>)
    requires
        is_field_value(version),
        is_field_value(created),
    ensures
        scanned(seq!["version: "@ + version, "created: "@ + created]) == match instant_of(
            created,
        ) {
            Some(at) => Ok::<ScannerView, ParseFailureView>(fields_read(version, at)),
            None => Err::<ScannerView, ParseFailureView>(
                ParseFailureView::BaselineTimestamp { text: created },
            ),
        },
{
    let h1 = "version: "@ + version;
    let h2 = "created: "@ + created;
    let one = seq![h1];
    let two = seq![h1, h2];
    lemma_version_line(version);
    lemma_created_line(created);
    assert(one.drop_last() =~= Seq::<Seq<char>>::empty());
    assert(scanned(one.drop_last()) == Ok::<ScannerView, ParseFailureView>(nothing_read()));
    assert(one.last() == h1);
    assert(scanned(one) == Ok::<ScannerView, ParseFailureView>(
        ScannerView { version: Some(version), ..nothing_read() },
    ));
    assert(two.drop_last() =~= one);
    assert(two.last() == h2);
}

/// What is read from the first `3 + count` lines of a baseline file that was
/// written with a summary: the two fields, and the first `count` lines of the
/// summary.
proof fn lemma_scan_block(
    version: Seq<char>,
    created: Seq<char>,
    at: Instant,
    block: Seq<Seq<char>>,
    count: int,
)
    requires
        is_field_value(version),
        is_field_value(created),
        instant_of(created) == Some(at),
        0 <= count <= block.len(),
    ensures
        scanned(
            (seq!["version: "@ + version, "created: "@ + created, "summary: |"@] + indent_each(
                block,
            )).take(3 + count),
        ) == Ok::<ScannerView, ParseFailureView>(
            ScannerView { in_block: true, block: block.take(count), ..fields_read(version, at) },
        ),
    decreases count,
{
    let h1 = "version: "@ + version;
    let h2 = "created: "@ + created;
    let h3 = "summary: |"@;
    let all = seq![h1, h2, h3] + indent_each(block);
    let upto = all.take(3 + count);
    if count == 0 {
        lemma_scan_fields(version, created);
        lemma_summary_line();
        assert(upto.drop_last() =~= seq![h1, h2]);
        assert(upto.last() == h3);
        assert(block.take(0) =~= Seq::<Seq<char>>::empty());
    } else {
        lemma_scan_block(version, created, at, block, count - 1);
        let line = block[count - 1];
        lemma_block_line(line);
        assert(upto.drop_last() =~= all.take(3 + count - 1));
        assert(upto.last() == "  "@ + line);
        assert(block.take(count - 1).push(line) =~= block.take(count));
    }
}

/// The summary that is read from a baseline file that was written with the
/// summary `summary`: none where no line of it was written, and else the lines
/// that were written, without the white space at the end of the last.
pub open spec fn summary_read_back(summary: Option<Seq<char>>) -> Option<Seq<char>> {
    match summary {
        Some(text) => if kept_lines(text).len() > 0 {
            Some(block_text(kept_lines(text)))
        } else {
            None
        },
        None => None,
    }
}

/// What is read from a baseline file that was written with this version, this
/// text for its timestamp and this summary.
pub open spec fn read_back(
    version: Seq<char>,
    created: Seq<char>,
    summary: Option<Seq<char>>,
) -> Result<BaselineView, ParseFailureView> {
    match instant_of(created) {
        Some(at) => Ok(
            BaselineView { version, created: at, summary: summary_read_back(summary) },
        ),
        None => Err(ParseFailureView::BaselineTimestamp { text: created }),
    }
}

/// A baseline file that was written is read back with the version that was
/// written, with the timestamp that the text of its timestamp stands for, and
/// with the lines of the summary that were written. This holds where the
/// version and the text of the timestamp are values of a field, and no line of
/// the summary ends with a carriage return.
pub proof fn lemma_written_is_read_back(
    version: Seq<char>,
    created: Seq<char>,
    summary: Option<Seq<char>>,
)
    requires
        is_field_value(version),
        is_field_value(created),
        summary matches Some(text) ==> are_plain_lines(kept_lines(text)),
    ensures
        parsed_baseline(rendered_with(version, created, summary)) == read_back(
            version,
            created,
            summary,
        ),
{
    lemma_lines_of_rendered(version, created, summary);
    lemma_scan_fields(version, created);
    let h1 = "version: "@ + version;
    let h2 = "created: "@ + created;
    let lines = written_lines(version, created, summary);
    match instant_of(created) {
        None => {
            assert(lines.take(2) =~= seq![h1, h2]);
            lemma_scan_fails(lines, 2);
        },
        Some(at) => {
            match summary {
                None => {
                    assert(lines =~= seq![h1, h2]);
                },
                Some(text) => {
                    let block = kept_lines(text);
                    let all = seq![h1, h2, "summary: |"@] + indent_each(block);
                    assert(lines =~= all);
                    lemma_scan_block(version, created, at, block, block.len() as int);
                    assert(all.take(3 + block.len() as int) =~= all);
                    assert(block.take(block.len() as int) =~= block);
                },
            }
        },
    }
}

/// The lines of a text hold no line feed.
pub proof fn lemma_lines_are_one_line(text: Seq<char>)
    ensures
        forall|i: int| 0 <= i < lines_of(text).len() ==> is_one_line(#[trigger] lines_of(text)[i]),
    decreases text.len(),
{
    lemma_index_of_char(text, '\n');
    let k = index_of_char(text, '\n');
    if text.len() == 0 {
    } else if k < text.len() {
        let line = text.take(k);
        let rest = text.skip(k + 1);
        lemma_lines_are_one_line(rest);
        assert(is_one_line(strip_cr(line))) by {
            assert forall|i: int| 0 <= i < strip_cr(line).len() implies strip_cr(line)[i]
                != '\n' by {
                assert(strip_cr(line)[i] == text[i]);
            }
        }
        assert forall|i: int| 0 <= i < lines_of(text).len() implies is_one_line(
            #[trigger] lines_of(text)[i],
        ) by {
            if i > 0 {
                assert(lines_of(text)[i] == lines_of(rest)[i - 1]);
            }
        }
    } else {
        assert(is_one_line(text));
    }
}

/// Whether no line feed of a text follows a carriage return.
pub open spec fn has_no_cr_lf(text: Seq<char>) -> bool {
    forall|i: int| 0 < i < text.len() && #[trigger] text[i] == '\n' ==> text[i - 1] != '\r'
}

/// Putting a line before lines puts it, and a line feed, before what they are
/// joined to.
proof fn lemma_join_of_front(first: Seq<char>, rest: Seq<Seq<char>>)
    requires
        rest.len() > 0,
    ensures
        join_of(seq![first] + rest) == first + seq!['\n'] + join_of(rest),
    decreases rest.len(),
{
    let all = seq![first] + rest;
    assert(all.last() == rest.last());
    if rest.len() == 1 {
        assert(all.drop_last() =~= seq![first]);
        assert(join_of(seq![first]) == first);
        assert(join_of(rest) == rest[0]);
    } else {
        assert(all.drop_last() =~= seq![first] + rest.drop_last());
        lemma_join_of_front(first, rest.drop_last());
        assert(first + seq!['\n'] + join_of(rest.drop_last()) + seq!['\n'] + rest.last()
            =~= first + seq!['\n'] + (join_of(rest.drop_last()) + seq!['\n'] + rest.last()));
    }
}

/// A text that does not end with a line feed, and in which no line feed follows
/// a carriage return, is its lines joined; and its last line ends as it ends.
proof fn lemma_join_of_lines(text: Seq<char>)
    requires
        text.len() > 0,
        text.last() != '\n',
        has_no_cr_lf(text),
    ensures
        join_of(lines_of(text)) == text,
        lines_of(text).len() > 0,
        lines_of(text).last().len() > 0,
        lines_of(text).last().last() == text.last(),
        forall|i: int|
            0 <= i < lines_of(text).len() - 1 ==> !ends_with_cr(#[trigger] lines_of(text)[i]),
    decreases text.len(),
{
    lemma_index_of_char(text, '\n');
    let k = index_of_char(text, '\n');
    if k < text.len() {
        let line = text.take(k);
        let rest = text.skip(k + 1);
        assert(k < text.len() - 1);
        assert(rest.last() == text.last());
        assert(has_no_cr_lf(rest)) by {
            assert forall|i: int| 0 < i < rest.len() && #[trigger] rest[i] == '\n' implies rest[i - 1]
                != '\r' by {
                assert(rest[i] == text[k + 1 + i]);
                assert(rest[i - 1] == text[k + i]);
            }
        }
        lemma_join_of_lines(rest);
        assert(strip_cr(line) == line) by {
            if line.len() > 0 {
                assert(line.last() == text[k - 1]);
            }
        }
        lemma_join_of_front(line, lines_of(rest));
        assert(line + seq!['\n'] + rest =~= text);
        let lines = lines_of(text);
        assert(lines == seq![line] + lines_of(rest));
        assert(lines.last() == lines_of(rest).last());
        assert forall|i: int| 0 <= i < lines.len() - 1 implies !ends_with_cr(
            #[trigger] lines[i],
        ) by {
            if i > 0 {
                assert(lines[i] == lines_of(rest)[i - 1]);
            }
        }
    } else {
        assert(lines_of(text) == seq![text]);
    }
}

/// A line that holds only white space ends with white space, where it is not empty.
proof fn lemma_blank_end(line: Seq<char>)
    requires
        is_blank(line),
        line.len() > 0,
    ensures
        is_white_space(line.last()),
{
    lemma_trim_start_keeps_end(line);
}

/// Whether a summary is read back as it is from a baseline file that was written
/// with it: it is not empty, has no white space at its end, and none of its line
/// feeds follows a carriage return.
pub open spec fn is_kept_summary(text: Seq<char>) -> bool {
    &&& text.len() > 0
    &&& trim_end_of(text) == text
    &&& has_no_cr_lf(text)
}

/// Such a summary is written whole, in lines that are read as they are, and is
/// read back as it is.
pub proof fn lemma_summary_is_read_back(text: Seq<char>)
    requires
        is_kept_summary(text),
    ensures
        are_plain_lines(kept_lines(text)),
        summary_read_back(Some(text)) == Some(text),
{
    lemma_trimmed_end(text);
    assert(text.last() != '\n') by {
        assert(is_white_space('\n'));
    }
    lemma_join_of_lines(text);
    lemma_lines_are_one_line(text);
    let lines = lines_of(text);
    if is_blank(lines.last()) {
        lemma_blank_end(lines.last());
    }
    assert(kept_lines(text) == lines);
    assert(are_plain_lines(lines)) by {
        assert forall|i: int| 0 <= i < lines.len() implies is_one_line(#[trigger] lines[i])
            && !ends_with_cr(lines[i]) by {
            if i == lines.len() - 1 {
                assert(is_white_space('\r'));
            }
        }
    }
}

/// Whether a baseline file that was written with this version, this text for
/// its timestamp and this summary is read back as it was written: the version
/// and the text are values of a field, and the summary, where there is one, is
/// kept.
pub open spec fn can_be_read_back(
    version: Seq<char>,
    created: Seq<char>,
    summary: Option<Seq<char>>,
) -> bool {
    &&& is_field_value(version)
    &&& is_field_value(created)
    &&& summary matches Some(text) ==> is_kept_summary(text)
}

/// The baseline with this version and this summary, and with the timestamp that
/// the text `created` stands for; the failure where it stands for none.
pub open spec fn read_as(
    version: Seq<char>,
    created: Seq<char>,
    summary: Option<Seq<char>>,
) -> Result<BaselineView, ParseFailureView> {
    match instant_of(created) {
        Some(at) => Ok(BaselineView { version, created: at, summary }),
        None => Err(ParseFailureView::BaselineTimestamp { text: created }),
    }
}

/// A baseline that was written and is read again is the same: the version and
/// the summary as they were, and the timestamp that the text stands for that was
/// written for it. This holds where the file can be read back.
pub proof fn lemma_baseline_round_trip(
    version: Seq<char>,
    created: Seq<char>,
    summary: Option<Seq<char>>,
)
    requires
        can_be_read_back(version, created, summary),
    ensures
        parsed_baseline(rendered_with(version, created, summary)) == read_as(
            version,
            created,
            summary,
        ),
{
    if let Some(text) = summary {
        lemma_summary_is_read_back(text);
    }
    lemma_written_is_read_back(version, created, summary);
}

/// A text without white space is the value of a field.
pub proof fn lemma_token_is_field_value(text: Seq<char>)
    requires
        is_token(text),
    ensures
        is_field_value(text),
{
    assert(is_white_space('\n'));
    assert(!is_white_space(text[0]));
    assert(!is_white_space(text[text.len() - 1]));
}

/// What has the form of a version code is the value of a field.
pub proof fn lemma_version_is_field_value(version: Seq<char>)
    requires
        is_version_format(version),
    ensures
        is_field_value(version),
{
    assert forall|i: int| 0 <= i < version.len() implies !is_white_space(
        #[trigger] version[i],
    ) by {
        assert(is_ascii_alnum(version[i]));
    }
    lemma_token_is_field_value(version);
}

/// Whether a baseline is read back as it is from the baseline file that is
/// written for it: its version has the form of a version code, or is another
/// value of a field; its timestamp is in a year of four digits; and its summary,
/// where it has one, is kept.
pub open spec fn is_kept_baseline(baseline: BaselineView) -> bool {
    &&& is_version_format(baseline.version) || is_field_value(baseline.version)
    &&& has_four_digit_year(baseline.created.secs)
    &&& baseline.summary matches Some(text) ==> is_kept_summary(text)
}

fn field_value(text: &str) -> (r: bool)
    ensures
        r == is_field_value(text@),
{
    let chars = chars_of(text);
    let n = chars.len();
    proof {
        lemma_index_of_char(chars@, '\n');
        assert(chars@.subrange(0, n as int) == chars@);
    }
    if find_char(&chars, '\n') < n {
        return false;
    }
    let (a, b) = trim_bounds(&chars, 0, n);
    b - a == n
}

fn kept_summary(text: &str) -> (r: bool)
    ensures
        r == is_kept_summary(text@),
{
    let chars = chars_of(text);
    let n = chars.len();
    if n == 0 {
        return false;
    }
    assert(chars@.subrange(0, n as int) == chars@);
    if drop_white(&chars, 0, n) < n {
        return false;
    }
    let mut i: usize = 1;
    while i < n
        invariant
            1 <= i <= n,
            n == chars.len(),
            chars@ == text@,
            trim_end_of(chars@) == chars@,
            forall|j: int| 0 < j < i && #[trigger] chars@[j] == '\n' ==> chars@[j - 1] != '\r',
        decreases n - i,
    {
        if chars[i] == '\n' && chars[i - 1] == '\r' {
            return false;
        }
        i = i + 1;
    }
    true
}

/// Whether a baseline file that is written with this version, this text for its
/// timestamp and this summary is read back as it was written.
pub fn can_read_back(version: &str, created: &str, summary: Option<&str>) -> (r: bool)
    ensures
        r == can_be_read_back(version@, created@, summary.deep_view()),
{
    let summary_is_kept = match summary {
        Some(text) => kept_summary(text),
        None => true,
    };
    field_value(version) && field_value(created) && summary_is_kept
}

} // verus!
