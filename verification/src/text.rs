//! Text as sequences of characters: character classes, conversion between
//! strings and vectors of characters, and searching.

use vstd::prelude::*;

verus! {

/// `String::push` of the standard library: it appends the character to the end
/// of the string and leaves what was there as it was.
pub assume_specification[ String::push ](s: &mut String, ch: char)
    ensures
        final(s)@ == old(s)@.push(ch),
;

/// The characters with the Unicode property `White_Space`.
pub open spec fn is_white_space(c: char) -> bool {
    let u = c as u32;
    ||| 0x09 <= u <= 0x0D
    ||| u == 0x20
    ||| u == 0x85
    ||| u == 0xA0
    ||| u == 0x1680
    ||| 0x2000 <= u <= 0x200A
    ||| u == 0x2028
    ||| u == 0x2029
    ||| u == 0x202F
    ||| u == 0x205F
    ||| u == 0x3000
}

/// A text that is not empty and holds no white space.
pub open spec fn is_token(text: Seq<char>) -> bool {
    text.len() > 0 && forall|i: int| 0 <= i < text.len() ==> !is_white_space(#[trigger] text[i])
}

/// An ASCII letter of either case, or an ASCII digit.
pub open spec fn is_ascii_alnum(c: char) -> bool {
    ('0' <= c <= '9') || ('a' <= c <= 'z') || ('A' <= c <= 'Z')
}

/// An ASCII digit or a lower-case ASCII letter.
pub open spec fn is_lower_alnum(c: char) -> bool {
    ('0' <= c <= '9') || ('a' <= c <= 'z')
}

/// Whether the character is white space.
pub fn white_space(c: char) -> (r: bool)
    ensures
        r == is_white_space(c),
{
    let u: u32 = c as u32;
    (0x09 <= u && u <= 0x0D) || u == 0x20 || u == 0x85 || u == 0xA0 || u == 0x1680 || (0x2000 <= u
        && u <= 0x200A) || u == 0x2028 || u == 0x2029 || u == 0x202F || u == 0x205F || u == 0x3000
}

/// Whether the character is an ASCII letter or digit.
pub fn ascii_alnum(c: char) -> (r: bool)
    ensures
        r == is_ascii_alnum(c),
{
    ('0' <= c && c <= '9') || ('a' <= c && c <= 'z') || ('A' <= c && c <= 'Z')
}

/// Whether the character is an ASCII digit or a lower-case ASCII letter.
pub fn lower_alnum(c: char) -> (r: bool)
    ensures
        r == is_lower_alnum(c),
{
    ('0' <= c && c <= '9') || ('a' <= c && c <= 'z')
}

/// The characters of a string, in order.
pub fn chars_of(s: &str) -> (v: Vec<char>)
    ensures
        v@ == s@,
{
    let mut v: Vec<char> = Vec::new();
    for c in it: s.chars()
        invariant
            v@ == it.seq().take(it.index() as int),
            it.seq() == s@,
    {
        v.push(c);
    }
    v
}

/// The string made of the characters `v[from..to]`.
pub(crate) fn string_of(v: &Vec<char>, from: usize, to: usize) -> (s: String)
    requires
        from <= to <= v.len(),
    ensures
        s@ == v@.subrange(from as int, to as int),
{
    let mut s = String::new();
    let mut i: usize = from;
    while i < to
        invariant
            from <= i <= to <= v.len(),
            s@ == v@.subrange(from as int, i as int),
        decreases to - i,
    {
        s.push(v[i]);
        i = i + 1;
    }
    s
}

/// The characters `v[from..to]` as a vector of their own.
pub(crate) fn slice_of(v: &Vec<char>, from: usize, to: usize) -> (r: Vec<char>)
    requires
        from <= to <= v.len(),
    ensures
        r@ == v@.subrange(from as int, to as int),
{
    let mut r: Vec<char> = Vec::new();
    let mut i: usize = from;
    while i < to
        invariant
            from <= i <= to <= v.len(),
            r@ == v@.subrange(from as int, i as int),
        decreases to - i,
    {
        r.push(v[i]);
        i = i + 1;
    }
    r
}

/// Whether the two vectors hold the same characters.
pub fn same_chars(a: &Vec<char>, b: &Vec<char>) -> (r: bool)
    ensures
        r == (a@ == b@),
{
    if a.len() != b.len() {
        return false;
    }
    let mut i: usize = 0;
    while i < a.len()
        invariant
            a.len() == b.len(),
            i <= a.len(),
            a@.take(i as int) == b@.take(i as int),
        decreases a.len() - i,
    {
        if a[i] != b[i] {
            return false;
        }
        assert(a@.take(i + 1) == a@.take(i as int).push(a@[i as int]));
        assert(b@.take(i + 1) == b@.take(i as int).push(b@[i as int]));
        i = i + 1;
    }
    assert(a@.take(a.len() as int) == a@);
    assert(b@.take(b.len() as int) == b@);
    true
}

/// Whether `v` begins with the characters of `prefix`.
pub fn starts_with(v: &Vec<char>, prefix: &str) -> (r: bool)
    ensures
        r == prefix@.is_prefix_of(v@),
{
    let p = chars_of(prefix);
    if p.len() > v.len() {
        return false;
    }
    let mut i: usize = 0;
    while i < p.len()
        invariant
            p@ == prefix@,
            p.len() <= v.len(),
            i <= p.len(),
            p@.take(i as int) == v@.take(i as int),
        decreases p.len() - i,
    {
        if p[i] != v[i] {
            assert(!prefix@.is_prefix_of(v@)) by {
                if prefix@.is_prefix_of(v@) {
                    assert(v@.subrange(0, prefix@.len() as int)[i as int] == v@[i as int]);
                }
            }
            return false;
        }
        assert(p@.take(i + 1) == p@.take(i as int).push(p@[i as int]));
        assert(v@.take(i + 1) == v@.take(i as int).push(v@[i as int]));
        i = i + 1;
    }
    assert(p@.take(p.len() as int) == p@);
    true
}

/// The first position in `s` that holds `c`, or the length of `s` where none does.
pub open spec fn index_of_char(s: Seq<char>, c: char) -> int
    decreases s.len(),
{
    if s.len() == 0 || s[0] == c {
        0
    } else {
        1 + index_of_char(s.skip(1), c)
    }
}

/// What makes `k` the first position of `c` in `s`.
pub open spec fn is_first_index(s: Seq<char>, c: char, k: int) -> bool {
    &&& 0 <= k <= s.len()
    &&& forall|j: int| 0 <= j < k ==> s[j] != c
    &&& k < s.len() ==> s[k] == c
}

/// `index_of_char` is the first position of the character.
pub proof fn lemma_index_of_char(s: Seq<char>, c: char)
    ensures
        is_first_index(s, c, index_of_char(s, c)),
    decreases s.len(),
{
    if s.len() == 0 || s[0] == c {
    } else {
        lemma_index_of_char(s.skip(1), c);
        let k = index_of_char(s.skip(1), c);
        assert forall|j: int| 0 <= j < 1 + k implies s[j] != c by {
            if j > 0 {
                assert(s.skip(1)[j - 1] == s[j]);
            }
        }
        if 1 + k < s.len() {
            assert(s.skip(1)[k] == s[1 + k]);
        }
    }
}

/// The first position of a character is `index_of_char`.
pub proof fn lemma_first_index_unique(s: Seq<char>, c: char, k: int)
    requires
        is_first_index(s, c, k),
    ensures
        k == index_of_char(s, c),
{
    lemma_index_of_char(s, c);
    let m = index_of_char(s, c);
    if m < k {
        assert(s[m] != c);
    }
    if k < m {
        assert(s[k] != c);
    }
}

/// Whether `c` stands in `s` at one position and at no other.
pub open spec fn holds_once(s: Seq<char>, c: char) -> bool {
    let k = index_of_char(s, c);
    &&& 0 <= k < s.len()
    &&& index_of_char(s.skip(k + 1), c) == s.skip(k + 1).len()
}

/// `holds_once` says that the character stands at one position and at no other.
pub proof fn lemma_holds_once(s: Seq<char>, c: char)
    ensures
        holds_once(s, c) <==> exists|k: int|
            0 <= k < s.len() && #[trigger] s[k] == c && forall|j: int|
                0 <= j < s.len() && j != k ==> #[trigger] s[j] != c,
{
    lemma_index_of_char(s, c);
    let first = index_of_char(s, c);
    if 0 <= first < s.len() {
        let rest = s.skip(first + 1);
        lemma_index_of_char(rest, c);
        if holds_once(s, c) {
            assert forall|j: int| 0 <= j < s.len() && j != first implies #[trigger] s[j] != c by {
                if j > first {
                    assert(rest[j - first - 1] == s[j]);
                }
            }
        } else {
            let second = first + 1 + index_of_char(rest, c);
            assert(s[second] == rest[second - first - 1]);
            assert(s[second] == c && s[first] == c && first != second);
        }
    }
    if exists|k: int|
        0 <= k < s.len() && #[trigger] s[k] == c && forall|j: int|
            0 <= j < s.len() && j != k ==> #[trigger] s[j] != c {
        let k = choose|k: int|
            0 <= k < s.len() && #[trigger] s[k] == c && forall|j: int|
                0 <= j < s.len() && j != k ==> #[trigger] s[j] != c;
        assert(first == k);
        let rest = s.skip(k + 1);
        assert forall|j: int| 0 <= j < rest.len() implies rest[j] != c by {
            assert(rest[j] == s[k + 1 + j]);
        }
        lemma_first_index_unique(rest, c, rest.len() as int);
    }
}

/// The first position of `c` in `v`, or the length of `v`.
pub fn find_char(v: &Vec<char>, c: char) -> (k: usize)
    ensures
        k == index_of_char(v@, c),
        k <= v.len(),
{
    let mut i: usize = 0;
    while i < v.len() && v[i] != c
        invariant
            i <= v.len(),
            forall|j: int| 0 <= j < i ==> v@[j] != c,
        decreases v.len() - i,
    {
        i = i + 1;
    }
    proof {
        lemma_first_index_unique(v@, c, i as int);
    }
    i
}

/// The last position in `s` that holds `c`, or `-1` where none does.
pub open spec fn last_index_of_char(s: Seq<char>, c: char) -> int
    decreases s.len(),
{
    if s.len() == 0 {
        -1
    } else if s.last() == c {
        s.len() - 1
    } else {
        last_index_of_char(s.drop_last(), c)
    }
}

/// `last_index_of_char` is the last position of the character.
pub proof fn lemma_last_index_of_char(s: Seq<char>, c: char)
    ensures
        -1 <= last_index_of_char(s, c) < s.len(),
        last_index_of_char(s, c) >= 0 ==> s[last_index_of_char(s, c)] == c,
        forall|j: int| last_index_of_char(s, c) < j < s.len() ==> s[j] != c,
    decreases s.len(),
{
    if s.len() == 0 {
    } else if s.last() == c {
    } else {
        lemma_last_index_of_char(s.drop_last(), c);
        assert forall|j: int| last_index_of_char(s, c) < j < s.len() implies s[j] != c by {
            if j < s.len() - 1 {
                assert(s.drop_last()[j] == s[j]);
            }
        }
    }
}

/// The last position of `c` in `v`, if there is one.
pub fn rfind_char(v: &Vec<char>, c: char) -> (r: Option<usize>)
    ensures
        match r {
            Some(k) => k == last_index_of_char(v@, c),
            None => last_index_of_char(v@, c) == -1,
        },
{
    let mut i: usize = v.len();
    assert(v@.take(i as int) == v@);
    while i > 0
        invariant
            i <= v.len(),
            last_index_of_char(v@, c) == last_index_of_char(v@.take(i as int), c),
        decreases i,
    {
        if v[i - 1] == c {
            return Some(i - 1);
        }
        assert(v@.take(i as int).drop_last() == v@.take(i - 1));
        i = i - 1;
    }
    None
}

/// `s` without the white space at its start.
pub open spec fn trim_start_of(s: Seq<char>) -> Seq<char>
    decreases s.len(),
{
    if s.len() > 0 && is_white_space(s[0]) {
        trim_start_of(s.skip(1))
    } else {
        s
    }
}

/// `s` without the white space at its end.
pub open spec fn trim_end_of(s: Seq<char>) -> Seq<char>
    decreases s.len(),
{
    if s.len() > 0 && is_white_space(s.last()) {
        trim_end_of(s.drop_last())
    } else {
        s
    }
}

/// `s` without the white space at its start and at its end.
pub open spec fn trim_of(s: Seq<char>) -> Seq<char> {
    trim_end_of(trim_start_of(s))
}

/// The position in `v[from..to]` at which what is left after trimming the start begins.
pub(crate) fn skip_white(v: &Vec<char>, from: usize, to: usize) -> (a: usize)
    requires
        from <= to <= v.len(),
    ensures
        from <= a <= to,
        v@.subrange(a as int, to as int) == trim_start_of(v@.subrange(from as int, to as int)),
{
    let mut i: usize = from;
    while i < to && white_space(v[i])
        invariant
            from <= i <= to <= v.len(),
            trim_start_of(v@.subrange(from as int, to as int)) == trim_start_of(
                v@.subrange(i as int, to as int),
            ),
        decreases to - i,
    {
        assert(v@.subrange(i as int, to as int).skip(1) == v@.subrange(i + 1, to as int));
        i = i + 1;
    }
    i
}

/// The position in `v[from..to]` at which what is left after trimming the end stops.
pub(crate) fn drop_white(v: &Vec<char>, from: usize, to: usize) -> (b: usize)
    requires
        from <= to <= v.len(),
    ensures
        from <= b <= to,
        v@.subrange(from as int, b as int) == trim_end_of(v@.subrange(from as int, to as int)),
{
    let mut i: usize = to;
    while i > from && white_space(v[i - 1])
        invariant
            from <= i <= to <= v.len(),
            trim_end_of(v@.subrange(from as int, to as int)) == trim_end_of(
                v@.subrange(from as int, i as int),
            ),
        decreases i,
    {
        assert(v@.subrange(from as int, i as int).drop_last() == v@.subrange(from as int, i - 1));
        i = i - 1;
    }
    i
}

/// The bounds of `v[from..to]` trimmed at both ends.
pub(crate) fn trim_bounds(v: &Vec<char>, from: usize, to: usize) -> (r: (usize, usize))
    requires
        from <= to <= v.len(),
    ensures
        from <= r.0 <= r.1 <= to,
        v@.subrange(r.0 as int, r.1 as int) == trim_of(v@.subrange(from as int, to as int)),
{
    let a = skip_white(v, from, to);
    let b = drop_white(v, a, to);
    (a, b)
}

/// `v` trimmed at both ends.
pub fn trim(v: &Vec<char>) -> (r: Vec<char>)
    ensures
        r@ == trim_of(v@),
{
    assert(v@.subrange(0, v.len() as int) == v@);
    let (a, b) = trim_bounds(v, 0, v.len());
    slice_of(v, a, b)
}

/// `v` trimmed at its end.
pub fn trim_end(v: &Vec<char>) -> (r: Vec<char>)
    ensures
        r@ == trim_end_of(v@),
{
    assert(v@.subrange(0, v.len() as int) == v@);
    let b = drop_white(v, 0, v.len());
    slice_of(v, 0, b)
}

/// A line without the carriage return that may end it.
pub open spec fn strip_cr(line: Seq<char>) -> Seq<char> {
    if line.len() > 0 && line.last() == '\r' {
        line.drop_last()
    } else {
        line
    }
}

/// The lines of a text. A line ends with a line feed, or with a carriage return
/// and a line feed; neither belongs to the line. What follows the last line feed
/// is a line as it stands, unless it is empty.
pub open spec fn lines_of(text: Seq<char>) -> Seq<Seq<char>>
    decreases text.len(),
{
    let k = index_of_char(text, '\n');
    if text.len() == 0 {
        Seq::empty()
    } else if 0 <= k < text.len() {
        seq![strip_cr(text.take(k))] + lines_of(text.skip(k + 1))
    } else {
        seq![text]
    }
}

/// Whether a text is empty or ends with a line feed.
pub open spec fn ends_its_lines(text: Seq<char>) -> bool {
    text.len() == 0 || text.last() == '\n'
}

/// Whether a text holds no line feed.
pub open spec fn is_one_line(text: Seq<char>) -> bool {
    forall|i: int| 0 <= i < text.len() ==> text[i] != '\n'
}

/// A text without a line feed, followed by a line feed and more text, has the
/// text as its first line and the lines of the rest as the others.
pub proof fn lemma_lines_of_first(line: Seq<char>, rest: Seq<char>)
    requires
        is_one_line(line),
    ensures
        lines_of(line + seq!['\n'] + rest) == seq![strip_cr(line)] + lines_of(rest),
{
    let text = line + seq!['\n'] + rest;
    assert(text[line.len() as int] == '\n');
    assert forall|j: int| 0 <= j < line.len() implies text[j] != '\n' by {
        assert(text[j] == line[j]);
    }
    lemma_first_index_unique(text, '\n', line.len() as int);
    assert(text.take(line.len() as int) == line);
    assert(text.skip(line.len() as int + 1) == rest);
}

/// The lines of a text that ends its lines, followed by more text, are the lines
/// of the one and then those of the other.
pub proof fn lemma_lines_of_concat(a: Seq<char>, b: Seq<char>)
    requires
        ends_its_lines(a),
    ensures
        lines_of(a + b) == lines_of(a) + lines_of(b),
    decreases a.len(),
{
    if a.len() == 0 {
        assert(a + b == b);
        assert(lines_of(a) + lines_of(b) == lines_of(b));
    } else {
        lemma_index_of_char(a, '\n');
        let k = index_of_char(a, '\n');
        if k >= a.len() {
            assert(a[a.len() - 1] != '\n');
        }
        let line = a.take(k);
        let rest = a.skip(k + 1);
        assert(a == line + seq!['\n'] + rest);
        assert(a + b == line + seq!['\n'] + (rest + b));
        assert(is_one_line(line)) by {
            assert forall|i: int| 0 <= i < line.len() implies line[i] != '\n' by {
                assert(line[i] == a[i]);
            }
        }
        lemma_lines_of_first(line, rest);
        lemma_lines_of_first(line, rest + b);
        if rest.len() > 0 {
            assert(rest.last() == a.last());
        }
        lemma_lines_of_concat(rest, b);
        assert(seq![strip_cr(line)] + (lines_of(rest) + lines_of(b)) == seq![strip_cr(line)]
            + lines_of(rest) + lines_of(b));
    }
}

/// A text without a line feed that is followed by one is one line.
pub proof fn lemma_lines_of_one(line: Seq<char>)
    requires
        is_one_line(line),
    ensures
        lines_of(line + seq!['\n']) == seq![strip_cr(line)],
{
    lemma_lines_of_first(line, Seq::empty());
    assert(line + seq!['\n'] + Seq::<char>::empty() == line + seq!['\n']);
    assert(lines_of(Seq::<char>::empty()) == Seq::<Seq<char>>::empty());
    assert(seq![strip_cr(line)] + Seq::<Seq<char>>::empty() == seq![strip_cr(line)]);
}

/// The deep view of a vector of characters is its view.
pub proof fn lemma_deep_view_chars(v: Vec<char>)
    ensures
        v.deep_view() == v@,
{
    assert(v.deep_view() =~= v@);
}

/// What a push does to the deep view of a vector of lines.
pub proof fn lemma_deep_view_push(before: Vec<Vec<char>>, after: Vec<Vec<char>>, line: Vec<char>)
    requires
        after@ == before@.push(line),
    ensures
        after.deep_view() == before.deep_view().push(line@),
{
    lemma_deep_view_chars(line);
    assert(after.deep_view() =~= before.deep_view().push(line@));
}

/// The lines of `v`.
pub fn split_lines(v: &Vec<char>) -> (lines: Vec<Vec<char>>)
    ensures
        lines.deep_view() == lines_of(v@),
{
    let mut lines: Vec<Vec<char>> = Vec::new();
    let mut start: usize = 0;
    let mut i: usize = 0;
    assert(v@.skip(0) == v@);
    while i < v.len()
        invariant
            start <= i <= v.len(),
            forall|j: int| start <= j < i ==> v@[j] != '\n',
            lines_of(v@) == lines.deep_view() + lines_of(v@.skip(start as int)),
        decreases v.len() - i,
    {
        if v[i] == '\n' {
            let end = if i > start && v[i - 1] == '\r' {
                i - 1
            } else {
                i
            };
            let line = slice_of(v, start, end);
            proof {
                let rest = v@.skip(start as int);
                lemma_first_index_unique(rest, '\n', i - start);
                assert(rest.take(i - start) == v@.subrange(start as int, i as int));
                assert(rest.skip(i - start + 1) == v@.skip(i + 1));
                assert(line@ == strip_cr(rest.take(i - start)));
                assert(lines.deep_view().push(line@) == lines.deep_view() + seq![line@]);
            }
            let ghost before = lines;
            let ghost pushed = line;
            lines.push(line);
            proof {
                lemma_deep_view_push(before, lines, pushed);
            }
            start = i + 1;
        }
        i = i + 1;
    }
    if start < v.len() {
        let line = slice_of(v, start, v.len());
        proof {
            let rest = v@.skip(start as int);
            lemma_first_index_unique(rest, '\n', rest.len() as int);
            assert(rest == v@.subrange(start as int, v.len() as int));
        }
        let ghost before = lines;
        let ghost pushed = line;
        lines.push(line);
        proof {
            lemma_deep_view_push(before, lines, pushed);
        }
    }
    lines
}

/// The lines put together again, with a line feed between each two.
pub open spec fn join_of(lines: Seq<Seq<char>>) -> Seq<char>
    decreases lines.len(),
{
    if lines.len() == 0 {
        Seq::empty()
    } else if lines.len() == 1 {
        lines[0]
    } else {
        join_of(lines.drop_last()) + seq!['\n'] + lines.last()
    }
}

/// The lines of `lines`, with a line feed between each two.
pub fn join_lines(lines: &Vec<Vec<char>>) -> (r: Vec<char>)
    ensures
        r@ == join_of(lines.deep_view()),
{
    let mut r: Vec<char> = Vec::new();
    let mut i: usize = 0;
    while i < lines.len()
        invariant
            i <= lines.len(),
            r@ == join_of(lines.deep_view().take(i as int)),
        decreases lines.len() - i,
    {
        let ghost before = r@;
        if i > 0 {
            r.push('\n');
        }
        let line = &lines[i];
        let mut j: usize = 0;
        while j < line.len()
            invariant
                j <= line.len(),
                r@ == (if i > 0 {
                    before + seq!['\n']
                } else {
                    before
                }) + line@.take(j as int),
            decreases line.len() - j,
        {
            r.push(line[j]);
            assert(line@.take(j + 1) == line@.take(j as int).push(line@[j as int]));
            j = j + 1;
        }
        proof {
            let all = lines.deep_view();
            assert(line@.take(line.len() as int) == line@);
            assert(all.take(i + 1).drop_last() == all.take(i as int));
            assert(all.take(i + 1).last() == line@);
            if i == 0 {
                assert(before == Seq::<char>::empty());
                assert(before + line@ == line@);
            }
        }
        i = i + 1;
    }
    assert(lines.deep_view().take(lines.len() as int) == lines.deep_view());
    r
}

/// The order of a dictionary: at the first place where they differ the smaller
/// character decides, and a sequence comes before each longer one that begins
/// with it.
pub open spec fn lex_lt(a: Seq<char>, b: Seq<char>) -> bool
    decreases a.len(),
{
    if b.len() == 0 {
        false
    } else if a.len() == 0 {
        true
    } else if a[0] != b[0] {
        a[0] < b[0]
    } else {
        lex_lt(a.skip(1), b.skip(1))
    }
}

/// `a` comes before `b`, or they are the same.
pub open spec fn lex_le(a: Seq<char>, b: Seq<char>) -> bool {
    a == b || lex_lt(a, b)
}

/// Whether `a` comes before `b` in the order of a dictionary.
pub fn less(a: &Vec<char>, b: &Vec<char>) -> (r: bool)
    ensures
        r == lex_lt(a@, b@),
{
    let mut i: usize = 0;
    assert(a@.skip(0) == a@);
    assert(b@.skip(0) == b@);
    loop
        invariant
            i <= a.len(),
            i <= b.len(),
            lex_lt(a@, b@) == lex_lt(a@.skip(i as int), b@.skip(i as int)),
        decreases a.len() - i,
    {
        if i >= b.len() {
            return false;
        }
        if i >= a.len() {
            return true;
        }
        if a[i] != b[i] {
            return a[i] < b[i];
        }
        assert(a@.skip(i as int).skip(1) == a@.skip(i + 1));
        assert(b@.skip(i as int).skip(1) == b@.skip(i + 1));
        i = i + 1;
    }
}

/// Whether `a` comes before `b` in the order of a dictionary, or is the same.
pub fn less_or_same(a: &Vec<char>, b: &Vec<char>) -> (r: bool)
    ensures
        r == lex_le(a@, b@),
{
    same_chars(a, b) || less(a, b)
}

/// Where two texts begin with parts of one length, those parts decide the order
/// unless they are the same, and then what follows them decides.
pub proof fn lemma_lex_lt_concat(a1: Seq<char>, a2: Seq<char>, b1: Seq<char>, b2: Seq<char>)
    requires
        a1.len() == b1.len(),
    ensures
        lex_lt(a1 + a2, b1 + b2) == (lex_lt(a1, b1) || (a1 == b1 && lex_lt(a2, b2))),
    decreases a1.len(),
{
    if a1.len() == 0 {
        assert(a1 + a2 == a2);
        assert(b1 + b2 == b2);
        assert(a1 == b1);
    } else {
        assert((a1 + a2).skip(1) == a1.skip(1) + a2);
        assert((b1 + b2).skip(1) == b1.skip(1) + b2);
        if a1[0] == b1[0] {
            lemma_lex_lt_concat(a1.skip(1), a2, b1.skip(1), b2);
            if a1.skip(1) == b1.skip(1) {
                assert(a1 =~= seq![a1[0]] + a1.skip(1));
                assert(b1 =~= seq![b1[0]] + b1.skip(1));
            }
        }
    }
}

/// No text comes before itself.
pub proof fn lemma_lex_lt_irreflexive(a: Seq<char>)
    ensures
        !lex_lt(a, a),
    decreases a.len(),
{
    if a.len() > 0 {
        lemma_lex_lt_irreflexive(a.skip(1));
    }
}

/// What comes before a text that comes before a third comes before the third.
pub proof fn lemma_lex_lt_transitive(a: Seq<char>, b: Seq<char>, c: Seq<char>)
    requires
        lex_lt(a, b),
        lex_lt(b, c),
    ensures
        lex_lt(a, c),
    decreases a.len(),
{
    if a.len() > 0 && a[0] == b[0] && b[0] == c[0] {
        lemma_lex_lt_transitive(a.skip(1), b.skip(1), c.skip(1));
    }
}

/// Of two texts one comes before the other, unless they are the same.
pub proof fn lemma_lex_lt_total(a: Seq<char>, b: Seq<char>)
    ensures
        lex_lt(a, b) || lex_lt(b, a) || a == b,
    decreases a.len(),
{
    if a.len() > 0 && b.len() > 0 && a[0] == b[0] {
        lemma_lex_lt_total(a.skip(1), b.skip(1));
        if a.skip(1) == b.skip(1) {
            assert(a =~= seq![a[0]] + a.skip(1));
            assert(b =~= seq![b[0]] + b.skip(1));
        }
    } else if a.len() == 0 && b.len() == 0 {
        assert(a =~= b);
    }
}

/// Two texts do not come before each other.
pub proof fn lemma_lex_lt_asymmetric(a: Seq<char>, b: Seq<char>)
    requires
        lex_lt(a, b),
    ensures
        !lex_lt(b, a),
    decreases a.len(),
{
    if a.len() > 0 && b.len() > 0 && a[0] == b[0] {
        lemma_lex_lt_asymmetric(a.skip(1), b.skip(1));
    }
}

/// Whether the two strings hold the same characters.
pub fn same_text(a: &str, b: &str) -> (r: bool)
    ensures
        r == (a@ == b@),
{
    let x = chars_of(a);
    let y = chars_of(b);
    same_chars(&x, &y)
}

/// `text` with `to` in the place of each `from`, read from the left: where
/// `from` stands, what follows it is read on, so that no two of the places
/// overlap. An empty `from` stands nowhere.
pub open spec fn replaced(text: Seq<char>, from: Seq<char>, to: Seq<char>) -> Seq<char>
    decreases text.len(),
{
    if from.len() == 0 || text.len() == 0 {
        text
    } else if from.is_prefix_of(text) {
        to + replaced(text.skip(from.len() as int), from, to)
    } else {
        seq![text[0]] + replaced(text.skip(1), from, to)
    }
}

/// Whether `from` stands in `text` at the position `at`.
fn stands_at(text: &Vec<char>, at: usize, from: &Vec<char>) -> (r: bool)
    requires
        at <= text.len(),
    ensures
        r == from@.is_prefix_of(text@.skip(at as int)),
{
    let ghost rest = text@.skip(at as int);
    if from.len() > text.len() - at {
        return false;
    }
    let mut i: usize = 0;
    while i < from.len()
        invariant
            at <= text.len(),
            from.len() <= text.len() - at,
            i <= from.len(),
            rest == text@.skip(at as int),
            forall|j: int| 0 <= j < i ==> from@[j] == rest[j],
        decreases from.len() - i,
    {
        if from[i] != text[at + i] {
            assert(from@[i as int] != rest.subrange(0, from@.len() as int)[i as int]);
            return false;
        }
        i = i + 1;
    }
    assert(from@ =~= rest.subrange(0, from@.len() as int));
    true
}

/// `text` with `to` in the place of each `from`.
pub fn replace(text: &str, from: &str, to: &str) -> (r: String)
    ensures
        r@ == replaced(text@, from@, to@),
{
    let source = chars_of(text);
    let pattern = chars_of(from);
    let with = chars_of(to);
    let mut out: Vec<char> = Vec::new();
    let mut i: usize = 0;
    assert(source@.skip(0) == source@);
    if pattern.len() == 0 {
        assert(source@.subrange(0, source.len() as int) == source@);
        return string_of(&source, 0, source.len());
    }
    while i < source.len()
        invariant
            i <= source.len(),
            pattern.len() > 0,
            replaced(source@, pattern@, with@) == out@ + replaced(
                source@.skip(i as int),
                pattern@,
                with@,
            ),
        decreases source.len() - i,
    {
        let ghost rest = source@.skip(i as int);
        let ghost before = out@;
        if stands_at(&source, i, &pattern) {
            let mut j: usize = 0;
            while j < with.len()
                invariant
                    j <= with.len(),
                    out@ == before + with@.take(j as int),
                decreases with.len() - j,
            {
                out.push(with[j]);
                assert(with@.take(j + 1) == with@.take(j as int).push(with@[j as int]));
                j = j + 1;
            }
            proof {
                assert(with@.take(with.len() as int) == with@);
                assert(rest.skip(pattern.len() as int) == source@.skip(i + pattern.len()));
                assert(before + (with@ + replaced(rest.skip(pattern.len() as int), pattern@, with@))
                    == before + with@ + replaced(rest.skip(pattern.len() as int), pattern@, with@));
            }
            i = i + pattern.len();
        } else {
            out.push(source[i]);
            proof {
                assert(rest.skip(1) == source@.skip(i + 1));
                assert(before + (seq![rest[0]] + replaced(rest.skip(1), pattern@, with@))
                    == before.push(rest[0]) + replaced(rest.skip(1), pattern@, with@));
            }
            i = i + 1;
        }
    }
    assert(out@ + Seq::<char>::empty() == out@);
    assert(out@.subrange(0, out.len() as int) == out@);
    string_of(&out, 0, out.len())
}

/// The digits of a number in base ten, without zeros in front.
pub open spec fn digits_of(n: nat) -> Seq<char>
    decreases n,
{
    if n < 10 {
        seq![(48 + n) as char]
    } else {
        digits_of(n / 10).push((48 + n % 10) as char)
    }
}

/// A number in base ten, with a minus sign in front where it is less than zero.
pub open spec fn decimal_of(n: int) -> Seq<char> {
    if n < 0 {
        seq!['-'] + digits_of((-n) as nat)
    } else {
        digits_of(n as nat)
    }
}

fn push_digits(out: &mut String, n: u64)
    ensures
        final(out)@ == old(out)@ + digits_of(n as nat),
    decreases n,
{
    if n >= 10 {
        push_digits(out, n / 10);
    }
    let ghost before = out@;
    out.push((48u8 + (n % 10) as u8) as char);
    proof {
        if n >= 10 {
            assert(old(out)@ + digits_of(n as nat / 10).push((48 + n as nat % 10) as char)
                == before.push((48 + n as nat % 10) as char));
        } else {
            assert(old(out)@ + seq![(48 + n as nat) as char] == before.push(
                (48 + n as nat) as char,
            ));
        }
    }
}

/// A number in base ten.
pub fn decimal(n: i64) -> (r: String)
    ensures
        r@ == decimal_of(n as int),
{
    let mut r = String::new();
    if n < 0 {
        r.push('-');
        let size: u64 = if n == i64::MIN {
            0x8000_0000_0000_0000
        } else {
            (-n) as u64
        };
        push_digits(&mut r, size);
        assert(Seq::<char>::empty().push('-') == seq!['-']);
    } else {
        push_digits(&mut r, n as u64);
        assert(Seq::<char>::empty() + digits_of(n as nat) == digits_of(n as nat));
    }
    r
}

} // verus!
