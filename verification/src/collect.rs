//! Which files of a directory tree are embedded, and in what order.
use crate::path::{
    has_file_name, is_absolute, is_named, is_plain, is_sorted, join, joined, law_joined_is_seen,
    law_plain_paths_differ, law_sorted_paths, path_le, lemma_has_file_name, lemma_split_at,
    lemma_split_is_not_empty, lemma_split_without_separator, same_path, seen_from, sort_paths, sorted_paths, split,
};
use crate::text::{texts, to_chars};
use vstd::prelude::*;

verus! {

/// An entry of a directory, as a listing of the directory names it.
#[derive(Debug)]
pub enum Entry {
    /// Anything that is not a directory.
    File { name: String },
    /// A directory with its own listing; `None` where it could not be read.
    Dir { name: String, entries: Option<Vec<Entry>> },
}

/// Whether `ext` is the extension of the file name: what stands behind its last
/// dot. A dot that the name begins with starts no extension, and `..` has none.
pub open spec fn has_extension(name: Seq<char>, ext: Seq<char>) -> bool {
    &&& name != seq!['.', '.']
    &&& !ext.contains('.')
    &&& name.len() > ext.len() + 1
    &&& name[name.len() - ext.len() - 1] == '.'
    &&& name.skip(name.len() - ext.len()) == ext
}

/// Whether `ext` is the extension of the file name.
pub fn is_extension(name: &str, ext: &str) -> (r: bool)
    ensures
        r == has_extension(name@, ext@),
{
    let n = to_chars(name);
    let e = to_chars(ext);
    if n.len() <= e.len() || n.len() - e.len() <= 1 {
        return false;
    }
    if n.len() == 2 && n[0] == '.' && n[1] == '.' {
        assert(name@ == seq!['.', '.']);
        return false;
    }
    let at: usize = n.len() - e.len();
    if n[at - 1] != '.' {
        return false;
    }
    let mut i: usize = 0;
    while i < e.len()
        invariant
            i <= e@.len(),
            n@ == name@,
            e@ == ext@,
            at + e.len() == n.len(),
            forall|j: int| 0 <= j < i ==> name@[at + j] == ext@[j] && ext@[j] != '.',
        decreases e@.len() - i,
    {
        if e[i] == '.' {
            assert(ext@.contains('.'));
            return false;
        }
        if n[at + i] != e[i] {
            assert(name@.skip(at as int)[i as int] != ext@[i as int]);
            return false;
        }
        i += 1;
    }
    assert(name@.skip(at as int) == ext@);
    true
}

/// The files of a listing, and of the directories below it, that have the
/// extension, in the order of the listings. Each is named as seen from where
/// `prefix` is seen.
pub open spec fn found_in(entries: Seq<Entry>, prefix: Seq<char>, ext: Seq<char>) -> Seq<Seq<char>>
    decreases entries, entries.len(),
{
    if entries.len() == 0 {
        Seq::empty()
    } else {
        found_in(entries.drop_last(), prefix, ext) + found_at(entries.last(), prefix, ext)
    }
}

/// The files that one entry of a listing stands for.
pub open spec fn found_at(entry: Entry, prefix: Seq<char>, ext: Seq<char>) -> Seq<Seq<char>>
    decreases entry, 0nat,
{
    match entry {
        Entry::File { name } => if has_extension(name@, ext) {
            seq![joined(prefix, name@)]
        } else {
            Seq::empty()
        },
        Entry::Dir { name, entries: Some(list) } => found_in(list@, joined(prefix, name@), ext),
        Entry::Dir { name, entries: None } => Seq::empty(),
    }
}

/// The files that are collected below a directory, by their paths.
pub open spec fn collected(
    dir: Seq<char>,
    root: Option<Vec<Entry>>,
    ext: Seq<char>,
) -> Seq<Seq<char>> {
    match root {
        Some(list) => sorted_paths(found_in(list@, dir, ext)),
        None => Seq::empty(),
    }
}

fn collect_dir(entries: &Vec<Entry>, prefix: &str, ext: &str, out: &mut Vec<String>)
    ensures
        texts(final(out)@) == texts(old(out)@) + found_in(entries@, prefix@, ext@),
    decreases entries,
{
    let ghost start = texts(out@);
    let mut i: usize = 0;
    assert(start == start + found_in(entries@.take(0), prefix@, ext@));
    while i < entries.len()
        invariant
            i <= entries@.len(),
            texts(out@) == start + found_in(entries@.take(i as int), prefix@, ext@),
        decreases entries@.len() - i,
    {
        assert(entries@.take(i + 1).drop_last() == entries@.take(i as int));
        assert(entries@.take(i + 1).last() == entries@[i as int]);
        let ghost before = texts(out@);
        match &entries[i] {
            Entry::File { name } => {
                if is_extension(name.as_str(), ext) {
                    out.push(join(prefix, name.as_str()));
                    assert(texts(out@) == before + seq![joined(prefix@, name@)]);
                }
            },
            Entry::Dir { name, entries: Some(list) } => {
                let below = join(prefix, name.as_str());
                collect_dir(list, below.as_str(), ext, out);
            },
            Entry::Dir { name, entries: None } => {},
        }
        assert(texts(out@) == before + found_at(entries@[i as int], prefix@, ext@));
        i += 1;
    }
    assert(entries@.take(entries@.len() as int) == entries@);
}

/// Collect the `*.<ext>` files under the directory `dir` (recursively), sorted by
/// path. `root` is the directory's listing, `None` where it does not exist.
pub fn collect(dir: &str, root: &Option<Vec<Entry>>, ext: &str) -> (r: Vec<String>)
    ensures
        texts(r@) == collected(dir@, *root, ext@),
{
    let mut out: Vec<String> = Vec::new();
    assert(texts(out@) == Seq::<Seq<char>>::empty());
    if let Some(list) = root {
        collect_dir(list, dir, ext, &mut out);
        assert(texts(out@) == found_in(list@, dir@, ext@));
        out = sort_paths(out);
    }
    out
}

/// A file is found in a listing exactly where one of the entries stands for it.
pub proof fn law_found_in(entries: Seq<Entry>, prefix: Seq<char>, ext: Seq<char>, p: Seq<char>)
    ensures
        found_in(entries, prefix, ext).contains(p) <==> exists|i: int|
            0 <= i < entries.len() && (#[trigger] found_at(entries[i], prefix, ext)).contains(p),
    decreases entries.len(),
{
    if entries.len() > 0 {
        let head = found_in(entries.drop_last(), prefix, ext);
        let tail = found_at(entries.last(), prefix, ext);
        law_found_in(entries.drop_last(), prefix, ext, p);
        if found_in(entries, prefix, ext).contains(p) {
            let k = choose|k: int|
                0 <= k < found_in(entries, prefix, ext).len() && found_in(entries, prefix, ext)[k]
                    == p;
            if k < head.len() {
                assert(head[k] == p);
                let i = choose|i: int|
                    0 <= i < entries.drop_last().len() && (#[trigger] found_at(
                        entries.drop_last()[i],
                        prefix,
                        ext,
                    )).contains(p);
                assert(found_at(entries[i], prefix, ext).contains(p));
            } else {
                assert(tail[k - head.len()] == p);
                assert(found_at(entries[entries.len() - 1], prefix, ext).contains(p));
            }
        }
        if exists|i: int|
            0 <= i < entries.len() && (#[trigger] found_at(entries[i], prefix, ext)).contains(p) {
            let i = choose|i: int|
                0 <= i < entries.len() && (#[trigger] found_at(entries[i], prefix, ext)).contains(
                    p,
                );
            if i < entries.len() - 1 {
                assert(found_at(entries.drop_last()[i], prefix, ext).contains(p));
                assert(head.contains(p));
                let k = choose|k: int| 0 <= k < head.len() && head[k] == p;
                assert((head + tail)[k] == p);
            } else {
                let k = choose|k: int| 0 <= k < tail.len() && tail[k] == p;
                assert((head + tail)[head.len() + k] == p);
            }
        }
    }
}

/// The name of an entry.
pub open spec fn entry_name(entry: Entry) -> Seq<char> {
    match entry {
        Entry::File { name } => name@,
        Entry::Dir { name, .. } => name@,
    }
}

/// A name that a file system gives to an entry: not empty, without `/`, and
/// neither `.` nor `..`.
pub open spec fn is_entry_name(name: Seq<char>) -> bool {
    &&& name.len() > 0
    &&& !name.contains('/')
    &&& name != seq!['.']
    &&& name != seq!['.', '.']
}

/// A listing as a file system gives it, on every level: each name is one that
/// an entry can have, and no two entries of a directory have the same.
pub open spec fn is_listing(entries: Seq<Entry>) -> bool
    decreases entries, entries.len(),
{
    entries.len() > 0 ==> {
        &&& is_listing(entries.drop_last())
        &&& is_listed(entries.last())
        &&& forall|i: int|
            0 <= i < entries.len() - 1 ==> entry_name(#[trigger] entries[i]) != entry_name(
                entries.last(),
            )
    }
}

/// An entry of a listing as a file system gives it.
pub open spec fn is_listed(entry: Entry) -> bool
    decreases entry, 0nat,
{
    &&& is_entry_name(entry_name(entry))
    &&& match entry {
        Entry::Dir { entries: Some(list), .. } => is_listing(list@),
        _ => true,
    }
}

/// What stands before the names of a directory's entries.
spec fn front(prefix: Seq<char>) -> Seq<char> {
    if prefix.len() == 0 {
        prefix
    } else {
        prefix.push('/')
    }
}

spec fn is_prefix_path(prefix: Seq<char>) -> bool {
    prefix.len() == 0 || (is_plain(prefix) && prefix.last() != '/')
}

/// What the files below an entry are called: the entry's name, and then nothing
/// or a separator with more behind it.
spec fn is_named_after(p: Seq<char>, prefix: Seq<char>, name: Seq<char>) -> bool {
    let start = front(prefix) + name;
    &&& p.len() >= start.len()
    &&& p.take(start.len() as int) == start
    &&& p.len() > start.len() ==> p[start.len() as int] == '/'
}

/// Whether the path `p` ends in a file name that has something before the dot
/// of the extension.
pub open spec fn ends_in_extension(p: Seq<char>, ext: Seq<char>) -> bool {
    &&& p.len() > ext.len() + 1
    &&& p[p.len() - ext.len() - 2] != '/'
    &&& p[p.len() - ext.len() - 1] == '.'
    &&& p.skip(p.len() - ext.len()) == ext
}

proof fn lemma_join_of_an_entry(prefix: Seq<char>, name: Seq<char>)
    requires
        is_prefix_path(prefix),
        is_entry_name(name),
    ensures
        joined(prefix, name) == front(prefix) + name,
        is_prefix_path(joined(prefix, name)),
        is_plain(joined(prefix, name)),
        joined(prefix, name).len() > 0,
{
    assert(name.contains(name.first()));
    assert(name.contains(name.last()));
    lemma_split_without_separator(name, '/');
    assert(is_named(name));
    if prefix.len() == 0 {
        assert(prefix + name == name);
    } else {
        lemma_split_at(prefix, name, '/');
        lemma_split_is_not_empty(prefix, '/');
        let all = split(joined(prefix, name), '/');
        assert(joined(prefix, name) == prefix.push('/') + name);
        assert forall|i: int| 0 <= i < all.len() implies is_named(#[trigger] all[i]) by {
            if i < split(prefix, '/').len() {
                assert(all[i] == split(prefix, '/')[i]);
            }
        }
    }
}

proof fn lemma_found_at(entry: Entry, prefix: Seq<char>, ext: Seq<char>, p: Seq<char>)
    requires
        is_listed(entry),
        is_prefix_path(prefix),
        found_at(entry, prefix, ext).contains(p),
    ensures
        is_plain(p),
        is_named_after(p, prefix, entry_name(entry)),
        ends_in_extension(p, ext),
    decreases entry, 0nat,
{
    let name = entry_name(entry);
    lemma_join_of_an_entry(prefix, name);
    match entry {
        Entry::File { .. } => {
            assert(p == joined(prefix, name));
            assert(p.take(p.len() as int) == p);
            assert(p.skip(p.len() - ext.len()) == name.skip(name.len() - ext.len()));
            assert(name.contains(name[name.len() - ext.len() - 2]));
        },
        Entry::Dir { entries: Some(list), .. } => {
            lemma_found_in(list@, joined(prefix, name), ext, p);
        },
        Entry::Dir { entries: None, .. } => {},
    }
}

proof fn lemma_found_in(entries: Seq<Entry>, prefix: Seq<char>, ext: Seq<char>, p: Seq<char>)
    requires
        is_listing(entries),
        is_prefix_path(prefix),
        found_in(entries, prefix, ext).contains(p),
    ensures
        is_plain(p),
        ends_in_extension(p, ext),
        prefix.len() > 0 ==> p.len() > prefix.len() && p.take(prefix.len() as int) == prefix
            && p[prefix.len() as int] == '/',
    decreases entries, entries.len(),
{
    let all = found_in(entries, prefix, ext);
    let head = found_in(entries.drop_last(), prefix, ext);
    let k = choose|k: int| 0 <= k < all.len() && all[k] == p;
    if k < head.len() {
        assert(head[k] == p);
        lemma_found_in(entries.drop_last(), prefix, ext, p);
    } else {
        let tail = found_at(entries.last(), prefix, ext);
        assert(tail[k - head.len()] == p);
        lemma_found_at(entries.last(), prefix, ext, p);
        let start = front(prefix) + entry_name(entries.last());
        if prefix.len() > 0 {
            assert(p.take(prefix.len() as int) == p.take(start.len() as int).take(
                prefix.len() as int,
            ));
            assert(start.take(prefix.len() as int) == prefix);
            assert(p.take(start.len() as int)[prefix.len() as int] == '/');
        }
    }
}

proof fn lemma_named_after_one(p: Seq<char>, prefix: Seq<char>, a: Seq<char>, b: Seq<char>)
    requires
        is_entry_name(a),
        is_entry_name(b),
        is_named_after(p, prefix, a),
        is_named_after(p, prefix, b),
    ensures
        a == b,
{
    let f = front(prefix);
    let n = f.len() as int;
    assert forall|i: int| 0 <= i < a.len() implies p[n + i] == a[i] by {
        assert(p.take((f + a).len() as int)[n + i] == (f + a)[n + i]);
    }
    assert forall|i: int| 0 <= i < b.len() implies p[n + i] == b[i] by {
        assert(p.take((f + b).len() as int)[n + i] == (f + b)[n + i]);
    }
    if a.len() < b.len() {
        assert(b.contains(b[a.len() as int]));
    } else if b.len() < a.len() {
        assert(a.contains(a[b.len() as int]));
    } else {
        assert forall|i: int| 0 <= i < a.len() implies a[i] == b[i] by {
            assert(p[n + i] == a[i]);
            assert(p[n + i] == b[i]);
        }
        assert(a == b);
    }
}

proof fn lemma_found_once_at(entry: Entry, prefix: Seq<char>, ext: Seq<char>)
    requires
        is_listed(entry),
        is_prefix_path(prefix),
    ensures
        found_at(entry, prefix, ext).no_duplicates(),
    decreases entry, 0nat,
{
    match entry {
        Entry::Dir { name, entries: Some(list) } => {
            lemma_join_of_an_entry(prefix, name@);
            lemma_found_once_in(list@, joined(prefix, name@), ext);
        },
        _ => {},
    }
}

proof fn lemma_found_once_in(entries: Seq<Entry>, prefix: Seq<char>, ext: Seq<char>)
    requires
        is_listing(entries),
        is_prefix_path(prefix),
    ensures
        found_in(entries, prefix, ext).no_duplicates(),
    decreases entries, entries.len(),
{
    if entries.len() > 0 {
        let head = found_in(entries.drop_last(), prefix, ext);
        let tail = found_at(entries.last(), prefix, ext);
        lemma_found_once_in(entries.drop_last(), prefix, ext);
        lemma_found_once_at(entries.last(), prefix, ext);
        assert forall|i: int, j: int| 0 <= i < head.len() && 0 <= j < tail.len() implies head[i]
            != tail[j] by {
            if head[i] == tail[j] {
                let p = head[i];
                assert(head.contains(p));
                assert(tail.contains(p));
                law_found_in(entries.drop_last(), prefix, ext, p);
                let k = choose|k: int|
                    0 <= k < entries.drop_last().len() && (#[trigger] found_at(
                        entries.drop_last()[k],
                        prefix,
                        ext,
                    )).contains(p);
                assert(entries.drop_last()[k] == entries[k]);
                lemma_listing_holds_listed(entries, k);
                lemma_found_at(entries[k], prefix, ext, p);
                lemma_found_at(entries.last(), prefix, ext, p);
                lemma_named_after_one(
                    p,
                    prefix,
                    entry_name(entries[k]),
                    entry_name(entries.last()),
                );
            }
        }
    }
}

proof fn lemma_listing_holds_listed(entries: Seq<Entry>, k: int)
    requires
        is_listing(entries),
        0 <= k < entries.len(),
    ensures
        is_listed(entries[k]),
    decreases entries.len(),
{
    if k < entries.len() - 1 {
        lemma_listing_holds_listed(entries.drop_last(), k);
        assert(entries.drop_last()[k] == entries[k]);
    }
}

/// Where the entries below `prefix` are, seen from where `dir` is seen.
spec fn place(dir: Seq<char>, prefix: Seq<char>) -> Seq<char> {
    if prefix.len() == 0 {
        dir
    } else {
        joined(dir, prefix)
    }
}

proof fn lemma_place(dir: Seq<char>, prefix: Seq<char>, name: Seq<char>)
    requires
        is_prefix_path(prefix),
        is_entry_name(name),
    ensures
        joined(place(dir, prefix), name) == joined(dir, joined(prefix, name)),
        place(dir, joined(prefix, name)) == joined(place(dir, prefix), name),
{
    lemma_join_of_an_entry(prefix, name);
    assert(name.contains(name.first()));
    if prefix.len() == 0 {
        assert(joined(prefix, name) == name);
    } else {
        assert(joined(dir, prefix).last() == prefix.last());
        assert(joined(place(dir, prefix), name) == joined(dir, joined(prefix, name)));
    }
}

proof fn lemma_found_at_place(entry: Entry, dir: Seq<char>, prefix: Seq<char>, ext: Seq<char>)
    requires
        is_listed(entry),
        is_prefix_path(prefix),
    ensures
        found_at(entry, place(dir, prefix), ext) == found_at(entry, prefix, ext).map_values(
            |p: Seq<char>| joined(dir, p),
        ),
    decreases entry, 0nat,
{
    let name = entry_name(entry);
    lemma_place(dir, prefix, name);
    lemma_join_of_an_entry(prefix, name);
    match entry {
        Entry::Dir { entries: Some(list), .. } => {
            lemma_found_in_place(list@, dir, joined(prefix, name), ext);
        },
        _ => {
            assert(found_at(entry, place(dir, prefix), ext) == found_at(
                entry,
                prefix,
                ext,
            ).map_values(|p: Seq<char>| joined(dir, p)));
        },
    }
}

proof fn lemma_found_in_place(
    entries: Seq<Entry>,
    dir: Seq<char>,
    prefix: Seq<char>,
    ext: Seq<char>,
)
    requires
        is_listing(entries),
        is_prefix_path(prefix),
    ensures
        found_in(entries, place(dir, prefix), ext) == found_in(entries, prefix, ext).map_values(
            |p: Seq<char>| joined(dir, p),
        ),
    decreases entries, entries.len(),
{
    if entries.len() > 0 {
        lemma_found_in_place(entries.drop_last(), dir, prefix, ext);
        lemma_found_at_place(entries.last(), dir, prefix, ext);
    }
    assert(found_in(entries, place(dir, prefix), ext) == found_in(
        entries,
        prefix,
        ext,
    ).map_values(|p: Seq<char>| joined(dir, p)));
}

/// Exactly the files with the extension, at any depth, are collected.
pub proof fn law_collected_are_the_found(
    dir: Seq<char>,
    list: Vec<Entry>,
    ext: Seq<char>,
    p: Seq<char>,
)
    ensures
        collected(dir, Some(list), ext).contains(p) <==> found_in(list@, dir, ext).contains(p),
        collected(dir, Some(list), ext).len() == found_in(list@, dir, ext).len(),
{
    let found = found_in(list@, dir, ext);
    law_sorted_paths(found);
    broadcast use vstd::seq_lib::group_to_multiset_ensures;

    assert(sorted_paths(found).to_multiset().count(p) == found.to_multiset().count(p));
}

/// The collected files are in order.
pub proof fn law_collected_are_sorted(dir: Seq<char>, list: Vec<Entry>, ext: Seq<char>)
    ensures
        is_sorted(collected(dir, Some(list), ext)),
{
    law_sorted_paths(found_in(list@, dir, ext));
}

/// A collected file lies below the directory, is named there without detours, and
/// its name ends in the extension with something before it.
pub proof fn law_collected_is_below(dir: Seq<char>, list: Vec<Entry>, ext: Seq<char>, i: int)
    requires
        is_listing(list@),
        0 <= i < collected(dir, Some(list), ext).len(),
    ensures
        ({
            let file = collected(dir, Some(list), ext)[i];
            &&& seen_from(file, dir) matches Some(rel)
            &&& file == joined(dir, rel)
            &&& is_plain(rel)
            &&& ends_in_extension(rel, ext)
        }),
{
    let all = collected(dir, Some(list), ext);
    let none = Seq::<char>::empty();
    let found = found_in(list@, none, ext);
    assert(all.contains(all[i]));
    law_collected_are_the_found(dir, list, ext, all[i]);
    lemma_found_in_place(list@, dir, none, ext);
    let full = found_in(list@, dir, ext);
    let k = choose|k: int| 0 <= k < full.len() && full[k] == all[i];
    assert(all[i] == joined(dir, found[k]));
    assert(found.contains(found[k]));
    lemma_found_in(list@, none, ext, found[k]);
    law_joined_is_seen(dir, found[k]);
}

/// No file is collected twice: no two of the paths are the same.
pub proof fn law_collected_once(dir: Seq<char>, list: Vec<Entry>, ext: Seq<char>)
    requires
        is_listing(list@),
    ensures
        collected(dir, Some(list), ext).no_duplicates(),
        forall|i: int, j: int|
            0 <= i < j < collected(dir, Some(list), ext).len() ==> !same_path(
                #[trigger] collected(dir, Some(list), ext)[i],
                #[trigger] collected(dir, Some(list), ext)[j],
            ),
{
    let none = Seq::<char>::empty();
    let found = found_in(list@, none, ext);
    let full = found_in(list@, dir, ext);
    let all = collected(dir, Some(list), ext);
    lemma_found_in_place(list@, dir, none, ext);
    lemma_found_once_in(list@, none, ext);
    assert forall|i: int, j: int| 0 <= i < full.len() && 0 <= j < full.len() && i != j implies full[i]
        != full[j] by {
        if full[i] == full[j] {
            assert(found.contains(found[i]) && found.contains(found[j]));
            lemma_found_in(list@, none, ext, found[i]);
            lemma_found_in(list@, none, ext, found[j]);
            law_plain_paths_differ(dir, found[i], found[j]);
        }
    }
    law_sorted_paths(full);
    full.lemma_multiset_has_no_duplicates();
    all.lemma_multiset_has_no_duplicates_conv();
    assert forall|i: int, j: int| 0 <= i < j < all.len() implies !same_path(
        #[trigger] all[i],
        #[trigger] all[j],
    ) by {
        if same_path(all[i], all[j]) {
            law_collected_is_below(dir, list, ext, i);
            law_collected_is_below(dir, list, ext, j);
            law_plain_paths_differ(dir, seen_from(all[i], dir)->0, seen_from(all[j], dir)->0);
        }
    }
}

proof fn lemma_found_in_any(entries: Seq<Entry>, prefix: Seq<char>, ext: Seq<char>, p: Seq<char>)
    requires
        ext.len() > 0,
        found_in(entries, prefix, ext).contains(p),
    ensures
        p.len() > 0 && p.last() == ext.last(),
        is_absolute(prefix) ==> is_absolute(p),
    decreases entries, entries.len(),
{
    let all = found_in(entries, prefix, ext);
    let head = found_in(entries.drop_last(), prefix, ext);
    let k = choose|k: int| 0 <= k < all.len() && all[k] == p;
    if k < head.len() {
        assert(head[k] == p);
        lemma_found_in_any(entries.drop_last(), prefix, ext, p);
    } else {
        assert(found_at(entries.last(), prefix, ext)[k - head.len()] == p);
        lemma_found_at_any(entries.last(), prefix, ext, p);
    }
}

proof fn lemma_found_at_any(entry: Entry, prefix: Seq<char>, ext: Seq<char>, p: Seq<char>)
    requires
        ext.len() > 0,
        found_at(entry, prefix, ext).contains(p),
    ensures
        p.len() > 0 && p.last() == ext.last(),
        is_absolute(prefix) ==> is_absolute(p),
    decreases entry, 0nat,
{
    match entry {
        Entry::File { name } => {
            assert(p == joined(prefix, name@));
            assert(name@.skip(name@.len() - ext.len()).last() == name@.last());
        },
        Entry::Dir { name, entries: Some(list) } => {
            lemma_found_in_any(list@, joined(prefix, name@), ext, p);
        },
        Entry::Dir { entries: None, .. } => {},
    }
}

/// Whatever a listing holds, each collected file has a file name, and its path is
/// absolute where the directory's path is.
pub proof fn law_collected_are_files(
    dir: Seq<char>,
    root: Option<Vec<Entry>>,
    ext: Seq<char>,
    i: int,
)
    requires
        ext.len() > 0,
        ext.last() != '/',
        ext.last() != '.',
        0 <= i < collected(dir, root, ext).len(),
    ensures
        has_file_name(collected(dir, root, ext)[i]),
        is_absolute(dir) ==> is_absolute(collected(dir, root, ext)[i]),
{
    let list = root->0;
    let p = collected(dir, root, ext)[i];
    assert(collected(dir, root, ext).contains(p));
    law_collected_are_the_found(dir, list, ext, p);
    lemma_found_in_any(list@, dir, ext, p);
    lemma_has_file_name(p);
}

/// A file name has an extension exactly where it is something, a dot and then the
/// extension, which holds no dot; `..` has none.
pub proof fn law_extension(name: Seq<char>, ext: Seq<char>)
    ensures
        name.len() > 0 && !ext.contains('.') && name + seq!['.'] + ext != seq!['.', '.']
            ==> has_extension(name + seq!['.'] + ext, ext),
        has_extension(name, ext) ==> !ext.contains('.') && name != seq!['.', '.'] && exists|
            stem: Seq<char>,
        | stem.len() > 0 && name == #[trigger] (stem + seq!['.'] + ext),
{
    let whole = name + seq!['.'] + ext;
    assert(whole.skip(whole.len() - ext.len()) == ext);
    if has_extension(name, ext) {
        let stem = name.take(name.len() - ext.len() - 1);
        assert(name == stem + seq!['.'] + ext);
    }
}

/// Whether a file of this name is in the listing: in the directory that the trail leads
/// to, one directory after the other.
pub open spec fn holds_file(entries: Seq<Entry>, trail: Seq<Seq<char>>, name: Seq<char>) -> bool
    decreases trail.len(),
{
    if trail.len() == 0 {
        exists|k: int|
            0 <= k < entries.len() && (#[trigger] entries[k] matches Entry::File { name: n } && n@
                == name)
    } else {
        exists|k: int|
            0 <= k < entries.len() && (#[trigger] entries[k] matches Entry::Dir {
                name: d,
                entries: Some(sub),
            } && d@ == trail.first() && holds_file(sub@, trail.drop_first(), name))
    }
}

/// The path of a file in the directory that the trail leads to from `dir`.
pub open spec fn trail_path(dir: Seq<char>, trail: Seq<Seq<char>>, name: Seq<char>) -> Seq<char>
    decreases trail.len(),
{
    if trail.len() == 0 {
        dir + seq!['/'] + name
    } else {
        trail_path(dir + seq!['/'] + trail.first(), trail.drop_first(), name)
    }
}

/// A name that is joined behind a separator: not empty, and with `/` at neither end.
pub open spec fn is_trail_name(name: Seq<char>) -> bool {
    name.len() > 0 && name.first() != '/' && name.last() != '/'
}

/// Each file `<name>.<ext>` of a tree, in the directory itself or in any below it, is
/// collected by its path, whatever its name is.
pub proof fn law_every_file_is_collected(
    dir: Seq<char>,
    list: Vec<Entry>,
    trail: Seq<Seq<char>>,
    name: Seq<char>,
    ext: Seq<char>,
)
    requires
        dir.len() > 0,
        dir.last() != '/',
        forall|i: int| 0 <= i < trail.len() ==> is_trail_name(#[trigger] trail[i]),
        name.len() > 0,
        name.first() != '/',
        !ext.contains('.'),
        name + seq!['.'] + ext != seq!['.', '.'],
        holds_file(list@, trail, name + seq!['.'] + ext),
    ensures
        collected(dir, Some(list), ext).contains(
            trail_path(dir, trail, name + seq!['.'] + ext),
        ),
{
    let file = name + seq!['.'] + ext;
    law_extension(name, ext);
    lemma_held_is_found(list@, dir, trail, file, ext);
    law_collected_are_the_found(dir, list, ext, trail_path(dir, trail, file));
}

proof fn lemma_held_is_found(
    entries: Seq<Entry>,
    dir: Seq<char>,
    trail: Seq<Seq<char>>,
    file: Seq<char>,
    ext: Seq<char>,
)
    requires
        dir.len() > 0,
        dir.last() != '/',
        forall|i: int| 0 <= i < trail.len() ==> is_trail_name(#[trigger] trail[i]),
        file.len() > 0,
        file.first() != '/',
        has_extension(file, ext),
        holds_file(entries, trail, file),
    ensures
        found_in(entries, dir, ext).contains(trail_path(dir, trail, file)),
    decreases trail.len(),
{
    let p = trail_path(dir, trail, file);
    if trail.len() == 0 {
        let k = choose|k: int|
            0 <= k < entries.len() && (#[trigger] entries[k] matches Entry::File { name: n } && n@
                == file);
        assert(joined(dir, file) == p);
        assert(found_at(entries[k], dir, ext)[0] == p);
        assert(found_at(entries[k], dir, ext).contains(p));
    } else {
        let d = trail.first();
        let k = choose|k: int|
            0 <= k < entries.len() && (#[trigger] entries[k] matches Entry::Dir {
                name: d,
                entries: Some(sub),
            } && d@ == trail.first() && holds_file(sub@, trail.drop_first(), file));
        assert(is_trail_name(trail[0]));
        assert(joined(dir, d) == dir + seq!['/'] + d);
        let rest = trail.drop_first();
        assert forall|i: int| 0 <= i < rest.len() implies is_trail_name(#[trigger] rest[i]) by {
            assert(is_trail_name(trail[i + 1]));
        }
        match entries[k] {
            Entry::Dir { name, entries: Some(sub) } => {
                lemma_held_is_found(sub@, joined(dir, d), rest, file, ext);
            },
            _ => {},
        }
        assert(found_at(entries[k], dir, ext).contains(p));
    }
    law_found_in(entries, dir, ext, p);
}

/// Nothing else is collected: what is collected is a file `<name>.<ext>` of the tree, by
/// its path. Of a directory that does not exist nothing is collected.
pub proof fn law_only_files_are_collected(
    dir: Seq<char>,
    list: Vec<Entry>,
    ext: Seq<char>,
    p: Seq<char>,
)
    requires
        dir.len() > 0,
        dir.last() != '/',
        is_listing(list@),
        collected(dir, Some(list), ext).contains(p),
    ensures
        !ext.contains('.'),
        exists|trail: Seq<Seq<char>>, name: Seq<char>|
            name.len() > 0 && #[trigger] holds_file(list@, trail, name + seq!['.'] + ext) && p
                == trail_path(dir, trail, name + seq!['.'] + ext),
        collected(dir, None, ext).len() == 0,
{
    law_collected_are_the_found(dir, list, ext, p);
    let (trail, file) = lemma_found_is_held(list@, dir, ext, p);
    law_extension(file, ext);
    let name = choose|stem: Seq<char>|
        stem.len() > 0 && file == #[trigger] (stem + seq!['.'] + ext);
    assert(holds_file(list@, trail, name + seq!['.'] + ext));
}

proof fn lemma_found_is_held(
    entries: Seq<Entry>,
    dir: Seq<char>,
    ext: Seq<char>,
    p: Seq<char>,
) -> (r: (Seq<Seq<char>>, Seq<char>))
    requires
        dir.len() > 0,
        dir.last() != '/',
        is_listing(entries),
        found_in(entries, dir, ext).contains(p),
    ensures
        holds_file(entries, r.0, r.1),
        has_extension(r.1, ext),
        p == trail_path(dir, r.0, r.1),
    decreases entries, entries.len(), 0nat,
{
    law_found_in(entries, dir, ext, p);
    let k = choose|k: int|
        0 <= k < entries.len() && (#[trigger] found_at(entries[k], dir, ext)).contains(p);
    lemma_listing_holds_listed(entries, k);
    let n = entry_name(entries[k]);
    assert(n.contains(n.first()));
    assert(n.contains(n.last()));
    assert(joined(dir, n) == dir + seq!['/'] + n);
    match entries[k] {
        Entry::File { name } => {
            let none = Seq::<Seq<char>>::empty();
            assert(holds_file(entries, none, name@));
            (none, name@)
        },
        Entry::Dir { name, entries: Some(list) } => {
            let (rest, file) = lemma_found_is_held(list@, joined(dir, n), ext, p);
            let trail = seq![n] + rest;
            assert(trail.drop_first() == rest);
            assert(trail.first() == n);
            assert(holds_file(entries, trail, file));
            (trail, file)
        },
        Entry::Dir { entries: None, .. } => {
            (Seq::empty(), Seq::empty())
        },
    }
}

/// The collected files stand in the order of their paths.
pub proof fn law_collected_in_order(dir: Seq<char>, root: Option<Vec<Entry>>, ext: Seq<char>)
    ensures
        forall|i: int, j: int|
            0 <= i <= j < collected(dir, root, ext).len() ==> path_le(
                #[trigger] collected(dir, root, ext)[i],
                #[trigger] collected(dir, root, ext)[j],
            ),
{
    match root {
        Some(list) => {
            law_sorted_paths(found_in(list@, dir, ext));
        },
        None => {},
    }
}

/// Of a directory that does not exist nothing is collected.
pub proof fn law_missing_directory_holds_nothing(dir: Seq<char>, ext: Seq<char>)
    ensures
        collected(dir, None, ext) == Seq::<Seq<char>>::empty(),
{
}

} // verus!
