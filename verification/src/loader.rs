//! The migrations of a directory: which file names are migrations, and the order
//! in which they run.

use crate::text::{
    chars_of, is_lower_alnum, last_index_of_char, lemma_last_index_of_char,
    lemma_lex_lt_irreflexive, lemma_lex_lt_total, lemma_lex_lt_transitive, less, lex_le, lex_lt,
    lower_alnum, rfind_char, string_of,
};
use crate::sequences::{lemma_filter_none, lemma_filter_one};
use crate::version::{is_version_format, version_format_at};
use crate::{Migration, MigrationView};
use vstd::prelude::*;
use vstd::seq_lib::{to_multiset_build, to_multiset_remove};

verus! {

/// The version code that a file name begins with: its first five characters,
/// where they have the form of a version code and a dash follows them.
pub open spec fn version_prefix(name: Seq<char>) -> Option<Seq<char>> {
    if name.len() >= 6 && name[5] == '-' && is_version_format(name.take(5)) {
        Some(name.take(5))
    } else {
        None
    }
}

/// The version code that a file name begins with; `None` where it begins with none.
pub fn extract_version(filename: &str) -> (r: Option<String>)
    ensures
        r.deep_view() == version_prefix(filename@),
{
    let name = chars_of(filename);
    if name.len() < 6 {
        return None;
    }
    if name[5] != '-' {
        return None;
    }
    assert(name@.take(5) == name@.subrange(0, 5));
    if version_format_at(&name, 0, 5) {
        Some(string_of(&name, 0, 5))
    } else {
        None
    }
}

/// A file name without its extension: what stands before its last dot, or all of
/// it where it has no dot.
pub open spec fn id_of(name: Seq<char>) -> Seq<char> {
    let dot = last_index_of_char(name, '.');
    if dot >= 0 {
        name.take(dot)
    } else {
        name
    }
}

fn id_chars(name: &Vec<char>) -> (r: String)
    ensures
        r@ == id_of(name@),
{
    proof {
        lemma_last_index_of_char(name@, '.');
    }
    match rfind_char(name, '.') {
        Some(dot) => {
            assert(name@.take(dot as int) == name@.subrange(0, dot as int));
            string_of(name, 0, dot)
        },
        None => {
            assert(name@.subrange(0, name.len() as int) == name@);
            string_of(name, 0, name.len())
        },
    }
}

/// The id of the migration in a file of this name: the name without its extension.
pub fn extract_id(filename: &str) -> (r: String)
    ensures
        r@ == id_of(filename@),
{
    let name = chars_of(filename);
    id_chars(&name)
}

/// The names of migration files: five digits or lower-case letters, a dash, and
/// at least one more character, none of them a slash.
pub open spec fn is_migration_name(name: Seq<char>) -> bool {
    &&& name.len() >= 7
    &&& forall|i: int| 0 <= i < 5 ==> is_lower_alnum(#[trigger] name[i])
    &&& name[5] == '-'
    &&& forall|i: int| 6 <= i < name.len() ==> #[trigger] name[i] != '/'
}

fn migration_name(name: &Vec<char>) -> (r: bool)
    ensures
        r == is_migration_name(name@),
{
    if name.len() < 7 {
        return false;
    }
    let mut i: usize = 0;
    while i < 5
        invariant
            i <= 5,
            name.len() >= 7,
            forall|j: int| 0 <= j < i ==> is_lower_alnum(#[trigger] name@[j]),
        decreases 5 - i,
    {
        if !lower_alnum(name[i]) {
            return false;
        }
        i = i + 1;
    }
    if name[5] != '-' {
        return false;
    }
    let mut k: usize = 6;
    while k < name.len()
        invariant
            6 <= k <= name.len(),
            forall|j: int| 6 <= j < k ==> #[trigger] name@[j] != '/',
        decreases name.len() - k,
    {
        if name[k] == '/' {
            return false;
        }
        k = k + 1;
    }
    true
}

/// What is found in the migrations directory: the name of an entry, its path, and
/// whether it is a file.
#[derive(Debug)]
pub struct Entry {
    pub file_name: String,
    pub path: String,
    pub is_file: bool,
}

/// What an `Entry` holds.
pub struct EntryView {
    pub file_name: Seq<char>,
    pub path: Seq<char>,
    pub is_file: bool,
}

impl View for Entry {
    type V = EntryView;

    open spec fn view(&self) -> EntryView {
        EntryView { file_name: self.file_name@, path: self.path@, is_file: self.is_file }
    }
}

impl DeepView for Entry {
    type V = EntryView;

    open spec fn deep_view(&self) -> EntryView {
        self@
    }
}

/// The migration that an entry of the directory is, if it is one: a file with the
/// name of a migration. What is no file is none, whatever its name.
pub open spec fn candidate(entry: EntryView) -> Option<MigrationView> {
    if entry.is_file && is_migration_name(entry.file_name) {
        Some(
            MigrationView {
                id: id_of(entry.file_name),
                version: entry.file_name.take(5),
                file_path: entry.path,
            },
        )
    } else {
        None
    }
}

/// The migrations among the entries of a directory, in the order of the entries.
pub open spec fn candidates(entries: Seq<EntryView>) -> Seq<MigrationView> {
    entries.filter_map(|entry: EntryView| candidate(entry))
}

/// The migrations of `migrations` with the version `version`, in their order.
pub open spec fn with_version(migrations: Seq<MigrationView>, version: Seq<char>) -> Seq<
    MigrationView,
> {
    migrations.filter(|m: MigrationView| m.version == version)
}

/// Whether no migration stands before one with a version that comes before its own.
pub open spec fn sorted_by_version(migrations: Seq<MigrationView>) -> bool {
    forall|i: int, j: int|
        0 <= i < j < migrations.len() ==> lex_le(
            #[trigger] migrations[i].version,
            #[trigger] migrations[j].version,
        )
}

/// Putting a migration into a sorted sequence behind all those that do not come
/// after it keeps the sequence sorted, and keeps the migrations of each version
/// in the order in which they came.
proof fn lemma_insert_keeps_order(
    sorted: Seq<MigrationView>,
    seen: Seq<MigrationView>,
    m: MigrationView,
    at: int,
)
    requires
        sorted_by_version(sorted),
        forall|v: Seq<char>| with_version(sorted, v) == with_version(seen, v),
        0 <= at <= sorted.len(),
        forall|k: int| 0 <= k < at ==> lex_le(#[trigger] sorted[k].version, m.version),
        forall|k: int| at <= k < sorted.len() ==> lex_lt(m.version, #[trigger] sorted[k].version),
    ensures
        sorted_by_version(sorted.insert(at, m)),
        forall|v: Seq<char>| with_version(sorted.insert(at, m), v) == with_version(seen.push(m), v),
        sorted.to_multiset() == seen.to_multiset() ==> sorted.insert(at, m).to_multiset()
            == seen.push(m).to_multiset(),
{
    let after = sorted.insert(at, m);
    assert(after.to_multiset() == sorted.to_multiset().insert(m)) by {
        assert(after.remove(at) =~= sorted);
        assert(after[at] == m);
        to_multiset_remove(after, at);
        after.to_multiset_ensures();
        assert(after.to_multiset().count(m) > 0);
        assert(after.to_multiset() =~= after.to_multiset().remove(m).insert(m));
    }
    to_multiset_build(seen, m);
    let head = sorted.subrange(0, at);
    let tail = sorted.subrange(at, sorted.len() as int);
    assert(after == head + seq![m] + tail);
    assert(sorted == head + tail);
    assert forall|i: int, j: int| 0 <= i < j < after.len() implies lex_le(
        #[trigger] after[i].version,
        #[trigger] after[j].version,
    ) by {
        if j < at {
            assert(after[i] == sorted[i] && after[j] == sorted[j]);
        } else if j == at {
            assert(after[i] == sorted[i]);
        } else if i < at {
            assert(after[i] == sorted[i] && after[j] == sorted[j - 1]);
        } else if i == at {
            assert(after[j] == sorted[j - 1]);
        } else {
            assert(after[i] == sorted[i - 1] && after[j] == sorted[j - 1]);
        }
    }
    assert forall|v: Seq<char>| with_version(after, v) == with_version(seen.push(m), v) by {
        let pred = |x: MigrationView| x.version == v;
        Seq::filter_distributes_over_add(head + seq![m], tail, pred);
        Seq::filter_distributes_over_add(head, seq![m], pred);
        Seq::filter_distributes_over_add(head, tail, pred);
        Seq::filter_distributes_over_add(seen, seq![m], pred);
        assert(seen.push(m) == seen + seq![m]);
        lemma_filter_one(m, pred);
        assert(with_version(sorted, v) == with_version(seen, v));
        if m.version == v {
            assert forall|k: int| 0 <= k < tail.len() implies !pred(#[trigger] tail[k]) by {
                assert(tail[k] == sorted[at + k]);
                lemma_lex_lt_irreflexive(v);
            }
            lemma_filter_none(tail, pred);
            assert(head.filter(pred) + Seq::<MigrationView>::empty() == head.filter(pred));
        } else {
            assert(head.filter(pred) + Seq::<MigrationView>::empty() == head.filter(pred));
        }
    }
}

/// The place in the sorted `migrations` for one more with the version `version`:
/// behind all those that do not come after it.
fn place_of(migrations: &Vec<Migration>, version: &Vec<char>) -> (at: usize)
    requires
        sorted_by_version(migrations.deep_view()),
    ensures
        at <= migrations.len(),
        forall|k: int|
            0 <= k < at ==> lex_le(#[trigger] migrations.deep_view()[k].version, version@),
        forall|k: int|
            at <= k < migrations.len() ==> lex_lt(
                version@,
                #[trigger] migrations.deep_view()[k].version,
            ),
{
    let mut at: usize = migrations.len();
    while at > 0
        invariant
            at <= migrations.len(),
            sorted_by_version(migrations.deep_view()),
            forall|k: int|
                at <= k < migrations.len() ==> lex_lt(
                    version@,
                    #[trigger] migrations.deep_view()[k].version,
                ),
        decreases at,
    {
        let other = chars_of(migrations[at - 1].version.as_str());
        assert(other@ == migrations.deep_view()[at - 1].version);
        if !less(version, &other) {
            proof {
                lemma_lex_lt_total(version@, other@);
                assert forall|k: int| 0 <= k < at implies lex_le(
                    #[trigger] migrations.deep_view()[k].version,
                    version@,
                ) by {
                    let x = migrations.deep_view()[k].version;
                    if k < at - 1 {
                        assert(lex_le(x, migrations.deep_view()[at - 1].version));
                        if x != other@ && other@ != version@ {
                            lemma_lex_lt_transitive(x, other@, version@);
                        }
                    }
                }
            }
            return at;
        }
        at = at - 1;
    }
    at
}

/// The migrations of a directory in the order in which they run: one for each
/// entry that is a file with the name of a migration, the versions ascending, and
/// migrations of one version in the order of their entries.
pub fn discover_migrations(entries: &[Entry]) -> (found: Vec<Migration>)
    ensures
        sorted_by_version(found.deep_view()),
        found.deep_view().to_multiset() == candidates(entries.deep_view()).to_multiset(),
        forall|v: Seq<char>|
            with_version(found.deep_view(), v) == with_version(candidates(entries.deep_view()), v),
{
    let mut found: Vec<Migration> = Vec::new();
    let mut i: usize = 0;
    assert(entries.deep_view().take(0) == Seq::<EntryView>::empty());
    assert(found.deep_view() == Seq::<MigrationView>::empty());
    while i < entries.len()
        invariant
            i <= entries.len(),
            sorted_by_version(found.deep_view()),
            found.deep_view().to_multiset() == candidates(
                entries.deep_view().take(i as int),
            ).to_multiset(),
            forall|v: Seq<char>|
                with_version(found.deep_view(), v) == with_version(
                    candidates(entries.deep_view().take(i as int)),
                    v,
                ),
        decreases entries.len() - i,
    {
        let entry = &entries[i];
        let ghost seen = candidates(entries.deep_view().take(i as int));
        proof {
            let upto = entries.deep_view().take(i + 1);
            assert(upto.drop_last() == entries.deep_view().take(i as int));
            assert(upto.last() == entry@);
        }
        let name = chars_of(entry.file_name.as_str());
        if entry.is_file && migration_name(&name) {
            let version = string_of(&name, 0, 5);
            let version_chars = chars_of(version.as_str());
            assert(name@.take(5) == name@.subrange(0, 5));
            let m = Migration { id: id_chars(&name), version, file_path: entry.path.clone() };
            assert(Some(m@) == candidate(entry@));
            let at = place_of(&found, &version_chars);
            proof {
                lemma_insert_keeps_order(found.deep_view(), seen, m@, at as int);
                assert(seen.push(m@) == seen + seq![m@]);
            }
            let ghost before = found.deep_view();
            found.insert(at, m);
            assert(found.deep_view() == before.insert(at as int, m@));
        }
        i = i + 1;
    }
    assert(entries.deep_view().take(entries.len() as int) == entries.deep_view());
    found
}

} // verus!
