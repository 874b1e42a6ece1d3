//! Where Qt's headers are: what `qmake` is asked, what is made of its answer,
//! and which include directories follow from it.
use crate::path::{
    contains_path, has_path, join, joined, law_sorted_paths, path_le, same_path, sort_paths,
    sorted_paths,
};
use crate::text::{is_white_space, law_trimmed_text, opt_text, texts, to_chars, trim, trimmed};
use vstd::prelude::*;
use vstd::utf8::{decode_utf8, valid_utf8};

verus! {

/// The names under which `qmake` is asked, in order.
pub open spec fn qmake_names() -> Seq<Seq<char>> {
    seq!["qmake6"@, "qmake"@, "qmake-qt5"@, "qmake-qt6"@]
}

/// The names under which `qmake` is asked, in order.
pub fn qmake_candidates() -> (r: Vec<String>)
    ensures
        texts(r@) == qmake_names(),
{
    let r = vec![
        "qmake6".to_owned(),
        "qmake".to_owned(),
        "qmake-qt5".to_owned(),
        "qmake-qt6".to_owned(),
    ];
    assert(texts(r@) == qmake_names());
    r
}

/// What `qmake` is asked.
pub open spec fn headers_query() -> Seq<Seq<char>> {
    seq!["-query"@, "QT_INSTALL_HEADERS"@]
}

/// What `qmake` is asked.
pub fn headers_query_args() -> (r: Vec<String>)
    ensures
        texts(r@) == headers_query(),
{
    let r = vec!["-query".to_owned(), "QT_INSTALL_HEADERS".to_owned()];
    assert(texts(r@) == headers_query());
    r
}

/// What a program that could be started left behind.
#[derive(Debug)]
pub struct ProgramOutput {
    /// Whether it ended with success.
    pub success: bool,
    /// What it wrote to its standard output.
    pub stdout: Vec<u8>,
}

/// The text that `String::from_utf8_lossy` makes of bytes.
pub uninterp spec fn lossy_utf8(bytes: Seq<u8>) -> Seq<char>;

/// Calls `String::from_utf8_lossy`. The text depends on the bytes alone, and
/// bytes that are UTF-8 are decoded as such. Which characters stand for bytes
/// that are not is left open.
#[verifier::external_body]
fn decode_lossy(bytes: &Vec<u8>) -> (r: String)
    ensures
        r@ == lossy_utf8(bytes@),
        valid_utf8(bytes@) ==> r@ == decode_utf8(bytes@),
{
    String::from_utf8_lossy(bytes).into_owned()
}

/// The header directory that a text names: the text without the white space
/// around it, and none where nothing is left.
pub open spec fn named_dir(text: Seq<char>) -> Option<Seq<char>> {
    if trimmed(text).len() == 0 {
        None
    } else {
        Some(trimmed(text))
    }
}

/// The header directory that the text printed by `qmake` names.
pub fn dir_named_by(text: &str) -> (r: Option<String>)
    ensures
        opt_text(r) == named_dir(text@),
{
    let dir = trim(text);
    if dir.as_str().is_empty() {
        None
    } else {
        Some(dir)
    }
}

/// The header directory that a `qmake` reports: none where it failed or names
/// none.
pub open spec fn reported_dir(output: ProgramOutput) -> Option<Seq<char>> {
    if output.success {
        named_dir(lossy_utf8(output.stdout@))
    } else {
        None
    }
}

/// The header directory that a `qmake` reports.
pub fn dir_reported_by(output: &ProgramOutput) -> (r: Option<String>)
    ensures
        opt_text(r) == reported_dir(*output),
        output.success && valid_utf8(output.stdout@) ==> opt_text(r) == named_dir(
            decode_utf8(output.stdout@),
        ),
{
    if !output.success {
        return None;
    }
    let text = decode_lossy(&output.stdout);
    dir_named_by(text.as_str())
}

/// The directories below which the version directories of Qt's core module may
/// be, in order.
pub open spec fn core_dirs(base: Seq<char>) -> Seq<Seq<char>> {
    seq![
        joined(base, "QtCore"@),
        joined(joined(base, "qt6"@), "QtCore"@),
        joined(joined(base, "Qt6"@), "QtCore"@),
    ]
}

/// The directories below which the version directories of Qt's core module may
/// be, in order.
pub fn core_dir_candidates(base: &str) -> (r: Vec<String>)
    ensures
        texts(r@) == core_dirs(base@),
{
    let lower = join(base, "qt6");
    let upper = join(base, "Qt6");
    let r = vec![
        join(base, "QtCore"),
        join(lower.as_str(), "QtCore"),
        join(upper.as_str(), "QtCore"),
    ];
    assert(texts(r@) == core_dirs(base@));
    r
}

/// Whether the name is a version of Qt6: `6.` and then digits and dots.
pub open spec fn is_version(name: Seq<char>) -> bool {
    &&& name.len() > 2
    &&& name[0] == '6'
    &&& name[1] == '.'
    &&& forall|i: int| 2 <= i < name.len() ==> #[trigger] name[i] == '.' || '0' <= name[i] <= '9'
}

fn version_name(name: &str) -> (r: bool)
    ensures
        r == is_version(name@),
{
    let chars = to_chars(name);
    if chars.len() <= 2 || chars[0] != '6' || chars[1] != '.' {
        return false;
    }
    let mut i: usize = 2;
    while i < chars.len()
        invariant
            2 <= i <= chars@.len(),
            chars@ == name@,
            forall|j: int| 2 <= j < i ==> #[trigger] name@[j] == '.' || '0' <= name@[j] <= '9',
        decreases chars@.len() - i,
    {
        let c = chars[i];
        if c != '.' && !('0' <= c && c <= '9') {
            assert(!(name@[i as int] == '.' || '0' <= name@[i as int] <= '9'));
            return false;
        }
        i += 1;
    }
    true
}

/// The versions among the names that a directory lists, in order.
pub open spec fn versions(names: Seq<Seq<char>>) -> Seq<Seq<char>> {
    sorted_paths(names.filter(|n: Seq<char>| is_version(n)))
}

fn versions_of(names: &Vec<String>) -> (r: Vec<String>)
    ensures
        texts(r@) == versions(texts(names@)),
{
    let ghost all = texts(names@);
    let ghost keep = |n: Seq<char>| is_version(n);
    let mut out: Vec<String> = Vec::new();
    let mut i: usize = 0;
    assert(texts(out@) == all.take(0).filter(keep)) by {
        reveal(Seq::filter);
    }
    while i < names.len()
        invariant
            i <= names@.len(),
            all == texts(names@),
            keep == (|n: Seq<char>| is_version(n)),
            texts(out@) == all.take(i as int).filter(keep),
        decreases names@.len() - i,
    {
        let ghost before = texts(out@);
        assert(all[i as int] == names@[i as int]@);
        assert(all.take(i + 1).drop_last() == all.take(i as int));
        assert(all.take(i + 1).last() == all[i as int]);
        proof {
            reveal(Seq::filter);
        }
        if version_name(names[i].as_str()) {
            out.push(names[i].clone());
            assert(texts(out@) == before.push(all[i as int]));
        }
        i += 1;
    }
    assert(all.take(names@.len() as int) == all);
    sort_paths(out)
}

/// A directory, its subdirectories of the Qt modules, and the `compat` directory
/// of each version of the core module. `names` is what the core module's
/// directory lists.
pub open spec fn module_dirs(root: Seq<char>, names: Seq<Seq<char>>) -> Seq<Seq<char>> {
    let core = joined(root, "QtCore"@);
    seq![root, core] + versions(names).map_values(
        |v: Seq<char>| joined(joined(core, v), "compat"@),
    ) + seq![joined(root, "QtGui"@), joined(root, "QtWidgets"@)]
}

/// The `k`-th of the listings; nothing is listed where there is none.
pub open spec fn listing(listings: Seq<Seq<Seq<char>>>, k: int) -> Seq<Seq<char>> {
    if 0 <= k < listings.len() {
        listings[k]
    } else {
        Seq::empty()
    }
}

/// The names of several listings.
pub open spec fn all_names(listings: Seq<Vec<String>>) -> Seq<Seq<Seq<char>>> {
    listings.map_values(|l: Vec<String>| texts(l@))
}

/// The directories that may hold headers, in order. `listings[k]` are the names
/// that the `k`-th of the [`core_dirs`] lists.
pub open spec fn header_dirs(base: Seq<char>, listings: Seq<Seq<Seq<char>>>) -> Seq<Seq<char>> {
    module_dirs(base, listing(listings, 0)) + module_dirs(
        joined(base, "qt6"@),
        listing(listings, 1),
    ) + module_dirs(joined(base, "Qt6"@), listing(listings, 2))
}

fn add_module_dirs(root: &str, listings: &Vec<Vec<String>>, k: usize, out: &mut Vec<String>)
    ensures
        texts(final(out)@) == texts(old(out)@) + module_dirs(
            root@,
            listing(all_names(listings@), k as int),
        ),
{
    let core = join(root, "QtCore");
    let found = if k < listings.len() {
        versions_of(&listings[k])
    } else {
        let none: Vec<String> = Vec::new();
        assert(texts(none@) == Seq::<Seq<char>>::empty());
        versions_of(&none)
    };
    let ghost names = listing(all_names(listings@), k as int);
    assert(texts(found@) == versions(names));
    let ghost compat = versions(names).map_values(
        |v: Seq<char>| joined(joined(core@, v), "compat"@),
    );
    out.push(root.to_owned());
    out.push(core.clone());
    let ghost start = texts(old(out)@) + seq![root@, core@];
    assert(texts(out@) == start);
    let mut i: usize = 0;
    assert(start == start + compat.take(0));
    while i < found.len()
        invariant
            i <= found@.len(),
            texts(found@) == versions(names),
            compat == versions(names).map_values(
                |v: Seq<char>| joined(joined(core@, v), "compat"@),
            ),
            texts(out@) == start + compat.take(i as int),
        decreases found@.len() - i,
    {
        let ghost before = texts(out@);
        assert(versions(names)[i as int] == found@[i as int]@);
        let version_dir = join(core.as_str(), found[i].as_str());
        out.push(join(version_dir.as_str(), "compat"));
        assert(texts(out@) == before.push(compat[i as int]));
        assert(compat.take(i + 1) == compat.take(i as int).push(compat[i as int]));
        i += 1;
    }
    assert(compat.take(found@.len() as int) == compat);
    let ghost before = texts(out@);
    out.push(join(root, "QtGui"));
    out.push(join(root, "QtWidgets"));
    assert(texts(out@) == before + seq![joined(root@, "QtGui"@), joined(root@, "QtWidgets"@)]);
    assert(texts(out@) == texts(old(out)@) + module_dirs(root@, names));
}

/// The directories that may hold headers, in order. `listings[k]` are the names
/// that the `k`-th of the [`core_dir_candidates`] lists.
pub fn header_dir_candidates(base: &str, listings: &Vec<Vec<String>>) -> (r: Vec<String>)
    ensures
        texts(r@) == header_dirs(base@, all_names(listings@)),
{
    let mut out: Vec<String> = Vec::new();
    add_module_dirs(base, listings, 0, &mut out);
    let lower = join(base, "qt6");
    add_module_dirs(lower.as_str(), listings, 1, &mut out);
    let upper = join(base, "Qt6");
    add_module_dirs(upper.as_str(), listings, 2, &mut out);
    assert(texts(out@) == header_dirs(base@, all_names(listings@)));
    out
}

/// The include directories after the first `n` candidates were looked at: the
/// base, and each candidate that exists and is not among them yet.
pub open spec fn dirs_taken(
    base: Seq<char>,
    candidates: Seq<Seq<char>>,
    exists_there: Seq<bool>,
    n: nat,
) -> Seq<Seq<char>>
    decreases n,
{
    if n == 0 {
        seq![base]
    } else {
        let before = dirs_taken(base, candidates, exists_there, (n - 1) as nat);
        let i = n - 1;
        if i < exists_there.len() && exists_there[i] && !has_path(before, candidates[i]) {
            before.push(candidates[i])
        } else {
            before
        }
    }
}

/// The include directories of a Qt whose headers are at `base`.
pub open spec fn include_dirs(
    base: Seq<char>,
    candidates: Seq<Seq<char>>,
    exists_there: Seq<bool>,
) -> Seq<Seq<char>> {
    dirs_taken(base, candidates, exists_there, candidates.len())
}

/// Qt's include directories: the base, and those of the `candidates` that exist.
/// `exists_there[i]` tells whether the `i`-th of them does.
fn existing_dirs(base: &str, candidates: &Vec<String>, exists_there: &Vec<bool>) -> (r: Vec<
    String,
>)
    ensures
        texts(r@) == include_dirs(base@, texts(candidates@), exists_there@),
{
    let ghost dirs = texts(candidates@);
    let mut all: Vec<String> = Vec::new();
    all.push(base.to_owned());
    let mut i: usize = 0;
    assert(texts(all@) == seq![base@]);
    while i < candidates.len()
        invariant
            i <= candidates@.len(),
            dirs == texts(candidates@),
            texts(all@) == dirs_taken(base@, dirs, exists_there@, i as nat),
        decreases candidates@.len() - i,
    {
        let ghost before = texts(all@);
        assert(dirs[i as int] == candidates@[i as int]@);
        if i < exists_there.len() && exists_there[i] && !contains_path(
            &all,
            candidates[i].as_str(),
        ) {
            all.push(candidates[i].clone());
            assert(texts(all@) == before.push(dirs[i as int]));
        }
        i += 1;
    }
    all
}

/// Qt's include directories: the base, and those of the module subdirectories
/// (`QtCore`, `QtCore/6.x/compat`, `qt6/QtCore`, etc.) that exist.
/// `listings[k]` are the names that the `k`-th of the [`core_dir_candidates`]
/// lists, and `exists_there[i]` tells whether the `i`-th of the
/// [`header_dir_candidates`] exists.
pub fn qt_include_dirs(base: &str, listings: &Vec<Vec<String>>, exists_there: &Vec<bool>) -> (r:
    Vec<String>)
    ensures
        texts(r@) == include_dirs(
            base@,
            header_dirs(base@, all_names(listings@)),
            exists_there@,
        ),
{
    let candidates = header_dir_candidates(base, listings);
    existing_dirs(base, &candidates, exists_there)
}

proof fn lemma_dirs_taken(
    base: Seq<char>,
    candidates: Seq<Seq<char>>,
    exists_there: Seq<bool>,
    n: nat,
)
    requires
        n <= candidates.len(),
    ensures
        ({
            let all = dirs_taken(base, candidates, exists_there, n);
            &&& all.len() >= 1
            &&& all.first() == base
            &&& forall|i: int, j: int|
                0 <= i < j < all.len() ==> !same_path(#[trigger] all[i], #[trigger] all[j])
            &&& forall|k: int|
                0 < k < all.len() ==> is_existing(candidates, exists_there, #[trigger] all[k])
            &&& forall|i: int|
                0 <= i < n && i < exists_there.len() && exists_there[i] ==> has_path(
                    all,
                    #[trigger] candidates[i],
                )
        }),
    decreases n,
{
    if n > 0 {
        lemma_dirs_taken(base, candidates, exists_there, (n - 1) as nat);
        let before = dirs_taken(base, candidates, exists_there, (n - 1) as nat);
        let all = dirs_taken(base, candidates, exists_there, n);
        let c = candidates[n - 1];
        if all.len() > before.len() {
            assert(all == before.push(c));
            assert(exists_there[n - 1]);
            assert(is_existing(candidates, exists_there, c));
            assert(all[before.len() as int] == c);
            assert(has_path(all, c)) by {
                assert(same_path(all[before.len() as int], c));
            }
            assert forall|i: int, j: int| 0 <= i < j < all.len() implies !same_path(
                #[trigger] all[i],
                #[trigger] all[j],
            ) by {
                if j == before.len() {
                    assert(!same_path(before[i], c));
                } else {
                    assert(!same_path(before[i], before[j]));
                }
            }
            assert forall|k: int| 0 < k < all.len() implies is_existing(
                candidates,
                exists_there,
                #[trigger] all[k],
            ) by {
                if k < before.len() {
                    assert(all[k] == before[k]);
                }
            }
            assert forall|i: int|
                0 <= i < n && i < exists_there.len() && exists_there[i] implies has_path(
                all,
                #[trigger] candidates[i],
            ) by {
                if i < n - 1 {
                    assert(has_path(before, candidates[i]));
                    let k = choose|k: int|
                        0 <= k < before.len() && same_path(#[trigger] before[k], candidates[i]);
                    assert(same_path(all[k], candidates[i]));
                }
            }
        }
    } else {
        assert(dirs_taken(base, candidates, exists_there, 0) == seq![base]);
    }
}

/// Whether `p` is one of the candidates that exist.
pub open spec fn is_existing(
    candidates: Seq<Seq<char>>,
    exists_there: Seq<bool>,
    p: Seq<char>,
) -> bool {
    exists|i: int|
        0 <= i < candidates.len() && i < exists_there.len() && exists_there[i]
            && #[trigger] candidates[i] == p
}

/// The base comes first; every other include directory is a candidate that
/// exists; each candidate that exists is among them; and no two are the same.
pub proof fn law_include_dirs(
    base: Seq<char>,
    candidates: Seq<Seq<char>>,
    exists_there: Seq<bool>,
)
    ensures
        ({
            let all = include_dirs(base, candidates, exists_there);
            &&& all.len() >= 1
            &&& all.first() == base
            &&& forall|i: int, j: int|
                0 <= i < j < all.len() ==> !same_path(#[trigger] all[i], #[trigger] all[j])
            &&& forall|k: int|
                0 < k < all.len() ==> is_existing(candidates, exists_there, #[trigger] all[k])
            &&& forall|i: int|
                0 <= i < candidates.len() && i < exists_there.len() && exists_there[i] ==> has_path(
                    all,
                    #[trigger] candidates[i],
                )
        }),
{
    lemma_dirs_taken(base, candidates, exists_there, candidates.len());
}

/// The `compat` directory of each version that the core module's directory lists
/// is among the candidates.
pub proof fn law_compat_dirs_are_candidates(
    base: Seq<char>,
    listings: Seq<Seq<Seq<char>>>,
    k: int,
    version: Seq<char>,
)
    requires
        0 <= k < 3,
        k < listings.len(),
        listings[k].contains(version),
        is_version(version),
    ensures
        header_dirs(base, listings).contains(
            joined(joined(core_dirs(base)[k], version), "compat"@),
        ),
{
    let names = listings[k];
    let root = if k == 0 {
        base
    } else if k == 1 {
        joined(base, "qt6"@)
    } else {
        joined(base, "Qt6"@)
    };
    let core = joined(root, "QtCore"@);
    let dir = joined(joined(core, version), "compat"@);
    let keep = |n: Seq<char>| is_version(n);
    let found = versions(names);
    let at = choose|at: int| 0 <= at < names.len() && names[at] == version;
    broadcast use vstd::seq_lib::group_filter_ensures;

    assert(names.contains(version) && keep(version));
    assert(names.filter(keep).contains(version));
    law_sorted_paths(names.filter(keep));
    assert(found.contains(version)) by {
        broadcast use vstd::seq_lib::group_to_multiset_ensures;

        assert(found.to_multiset().count(version) == names.filter(keep).to_multiset().count(
            version,
        ));
    }
    let v = choose|v: int| 0 <= v < found.len() && found[v] == version;
    let own = module_dirs(root, names);
    let compat = found.map_values(|v: Seq<char>| joined(joined(core, v), "compat"@));
    assert(compat[v] == dir);
    assert(own[2 + v] == dir);
    let a = module_dirs(base, listing(listings, 0));
    let b = module_dirs(joined(base, "qt6"@), listing(listings, 1));
    let all = header_dirs(base, listings);
    if k == 0 {
        assert(all[2 + v] == dir);
    } else if k == 1 {
        assert(all[a.len() + 2 + v] == dir);
    } else {
        assert(all[a.len() + b.len() + 2 + v] == dir);
    }
}

/// Four programs are asked, one after the other, and each the same.
pub proof fn law_qmake_is_asked()
    ensures
        qmake_names() == seq!["qmake6"@, "qmake"@, "qmake-qt5"@, "qmake-qt6"@],
        headers_query() == seq!["-query"@, "QT_INSTALL_HEADERS"@],
{
}

/// The directory that is named is the text without the white space around it; white
/// space alone names none.
pub proof fn law_named_dir(lead: Seq<char>, dir: Seq<char>, trail: Seq<char>)
    requires
        forall|i: int| 0 <= i < lead.len() ==> is_white_space(#[trigger] lead[i]),
        forall|i: int| 0 <= i < trail.len() ==> is_white_space(#[trigger] trail[i]),
        dir.len() > 0 ==> !is_white_space(dir.first()) && !is_white_space(dir.last()),
    ensures
        dir.len() > 0 ==> named_dir(lead + dir + trail) == Some(dir),
        dir.len() == 0 ==> named_dir(lead + dir + trail) is None,
{
    law_trimmed_text(lead, dir, trail);
}

/// A program reports what the text that it prints names where it ends with success, and
/// nothing where it does not.
pub proof fn law_reported_dir(output: ProgramOutput)
    ensures
        !output.success ==> reported_dir(output) is None,
        output.success ==> reported_dir(output) == named_dir(lossy_utf8(output.stdout@)),
{
}

/// The version directories of the core module are looked for in `QtCore`, `qt6/QtCore`
/// and `Qt6/QtCore` below the base.
pub proof fn law_core_dirs(base: Seq<char>)
    requires
        base.len() > 0,
        base.last() != '/',
    ensures
        core_dirs(base) == seq![
            base + "/QtCore"@,
            base + "/qt6/QtCore"@,
            base + "/Qt6/QtCore"@,
        ],
{
    lemma_below_base(base);
}

proof fn lemma_below_base(base: Seq<char>)
    requires
        base.len() > 0,
        base.last() != '/',
    ensures
        joined(base, "QtCore"@) == base + "/QtCore"@,
        joined(base, "QtGui"@) == base + "/QtGui"@,
        joined(base, "QtWidgets"@) == base + "/QtWidgets"@,
        joined(base, "qt6"@) == base + "/qt6"@,
        joined(base, "Qt6"@) == base + "/Qt6"@,
        joined(joined(base, "qt6"@), "QtCore"@) == base + "/qt6/QtCore"@,
        joined(joined(base, "Qt6"@), "QtCore"@) == base + "/Qt6/QtCore"@,
{
    lemma_module_names();
    lemma_below(base, "QtCore"@, "/QtCore"@);
    lemma_below(base, "QtGui"@, "/QtGui"@);
    lemma_below(base, "QtWidgets"@, "/QtWidgets"@);
    lemma_below(base, "qt6"@, "/qt6"@);
    lemma_below(base, "Qt6"@, "/Qt6"@);
    reveal_strlit("/qt6/QtCore");
    reveal_strlit("/Qt6/QtCore");
    reveal_strlit("/qt6");
    reveal_strlit("/Qt6");
    reveal_strlit("/QtCore");
    lemma_below(base + "/qt6"@, "QtCore"@, "/QtCore"@);
    lemma_below(base + "/Qt6"@, "QtCore"@, "/QtCore"@);
    assert("/qt6"@ + "/QtCore"@ == "/qt6/QtCore"@);
    assert("/Qt6"@ + "/QtCore"@ == "/Qt6/QtCore"@);
    assert(base + "/qt6"@ + "/QtCore"@ == base + ("/qt6"@ + "/QtCore"@));
    assert(base + "/Qt6"@ + "/QtCore"@ == base + ("/Qt6"@ + "/QtCore"@));
}

proof fn lemma_module_names()
    ensures
        "/QtCore"@ == seq!['/'] + "QtCore"@,
        "/QtGui"@ == seq!['/'] + "QtGui"@,
        "/QtWidgets"@ == seq!['/'] + "QtWidgets"@,
        "/qt6"@ == seq!['/'] + "qt6"@,
        "/Qt6"@ == seq!['/'] + "Qt6"@,
        "QtCore"@.len() > 0 && "QtCore"@[0] != '/',
        "QtGui"@.len() > 0 && "QtGui"@[0] != '/',
        "QtWidgets"@.len() > 0 && "QtWidgets"@[0] != '/',
        "qt6"@.len() > 0 && "qt6"@[0] != '/',
        "Qt6"@.len() > 0 && "Qt6"@[0] != '/',
{
    reveal_strlit("QtCore");
    reveal_strlit("/QtCore");
    reveal_strlit("QtGui");
    reveal_strlit("/QtGui");
    reveal_strlit("QtWidgets");
    reveal_strlit("/QtWidgets");
    reveal_strlit("qt6");
    reveal_strlit("/qt6");
    reveal_strlit("Qt6");
    reveal_strlit("/Qt6");
    assert("/QtCore"@ == seq!['/'] + "QtCore"@);
    assert("/QtGui"@ == seq!['/'] + "QtGui"@);
    assert("/QtWidgets"@ == seq!['/'] + "QtWidgets"@);
    assert("/qt6"@ == seq!['/'] + "qt6"@);
    assert("/Qt6"@ == seq!['/'] + "Qt6"@);
}

proof fn lemma_below(base: Seq<char>, name: Seq<char>, tail: Seq<char>)
    ensures
        base.len() > 0 && base.last() != '/' && name.len() > 0 && name[0] != '/' && tail == seq![
            '/',
        ] + name ==> joined(base, name) == base + tail,
{
    assert(base.push('/') + name == base + (seq!['/'] + name));
}

/// A version of Qt6 is `6.` and then at least one digit or dot, and nothing else.
pub proof fn law_version(v: Seq<char>)
    ensures
        is_version("6."@ + v) <==> v.len() > 0 && forall|i: int|
            0 <= i < v.len() ==> #[trigger] v[i] == '.' || '0' <= v[i] <= '9',
        is_version(v) ==> v.len() > 2 && v.take(2) == "6."@,
{
    reveal_strlit("6.");
    let name = "6."@ + v;
    if v.len() > 0 && forall|i: int|
        0 <= i < v.len() ==> #[trigger] v[i] == '.' || '0' <= v[i] <= '9' {
        assert forall|i: int| 2 <= i < name.len() implies #[trigger] name[i] == '.' || '0'
            <= name[i] <= '9' by {
            assert(name[i] == v[i - 2]);
        }
    }
    if is_version(name) {
        assert forall|i: int| 0 <= i < v.len() implies #[trigger] v[i] == '.' || '0' <= v[i]
            <= '9' by {
            assert(name[i + 2] == v[i]);
        }
    }
    if is_version(v) {
        assert(v.take(2) == "6."@);
    }
}

/// The versions are the names of a listing that are one, all of them, in order.
pub proof fn law_versions(names: Seq<Seq<char>>)
    ensures
        versions(names).to_multiset() == names.filter(
            |n: Seq<char>| is_version(n),
        ).to_multiset(),
        versions(names).len() == names.filter(|n: Seq<char>| is_version(n)).len(),
        forall|i: int, j: int|
            0 <= i <= j < versions(names).len() ==> path_le(
                #[trigger] versions(names)[i],
                #[trigger] versions(names)[j],
            ),
{
    law_sorted_paths(names.filter(|n: Seq<char>| is_version(n)));
}

/// The directories that may hold headers: for the base, for `qt6` and for `Qt6` below it,
/// the directory itself, its `QtCore`, the `compat` directory of each version there, its
/// `QtGui` and its `QtWidgets`. `compat[k]` are the `compat` directories of the `k`-th.
pub proof fn law_header_dirs(
    base: Seq<char>,
    listings: Seq<Seq<Seq<char>>>,
    compat: Seq<Seq<Seq<char>>>,
)
    requires
        base.len() > 0,
        base.last() != '/',
        listings.len() == 3,
        compat.len() == 3,
        forall|k: int|
            0 <= k < 3 ==> (#[trigger] compat[k]).len() == versions(listings[k]).len(),
        forall|i: int|
            0 <= i < compat[0].len() ==> #[trigger] compat[0][i] == base + "/QtCore/"@ + versions(
                listings[0],
            )[i] + "/compat"@,
        forall|i: int|
            0 <= i < compat[1].len() ==> #[trigger] compat[1][i] == base + "/qt6/QtCore/"@
                + versions(listings[1])[i] + "/compat"@,
        forall|i: int|
            0 <= i < compat[2].len() ==> #[trigger] compat[2][i] == base + "/Qt6/QtCore/"@
                + versions(listings[2])[i] + "/compat"@,
    ensures
        header_dirs(base, listings) == seq![base, base + "/QtCore"@] + compat[0] + seq![
            base + "/QtGui"@,
            base + "/QtWidgets"@,
        ] + (seq![base + "/qt6"@, base + "/qt6/QtCore"@] + compat[1] + seq![
            base + "/qt6/QtGui"@,
            base + "/qt6/QtWidgets"@,
        ]) + (seq![base + "/Qt6"@, base + "/Qt6/QtCore"@] + compat[2] + seq![
            base + "/Qt6/QtGui"@,
            base + "/Qt6/QtWidgets"@,
        ]),
{
    lemma_below_base(base);
    lemma_lower_root(base);
    lemma_upper_root(base);
    assert(compat[0].len() == versions(listings[0]).len());
    assert(compat[1].len() == versions(listings[1]).len());
    assert(compat[2].len() == versions(listings[2]).len());
    reveal_strlit("/QtCore/");
    reveal_strlit("/QtCore");
    reveal_strlit("/qt6/QtCore/");
    reveal_strlit("/qt6/QtCore");
    reveal_strlit("/Qt6/QtCore/");
    reveal_strlit("/Qt6/QtCore");
    assert(base + "/QtCore"@ + seq!['/'] == base + "/QtCore/"@);
    assert(base + "/qt6/QtCore"@ + seq!['/'] == base + "/qt6/QtCore/"@);
    assert(base + "/Qt6/QtCore"@ + seq!['/'] == base + "/Qt6/QtCore/"@);
    lemma_module_dirs(base, listings[0], base + "/QtCore"@, compat[0]);
    lemma_module_dirs(joined(base, "qt6"@), listings[1], base + "/qt6/QtCore"@, compat[1]);
    lemma_module_dirs(joined(base, "Qt6"@), listings[2], base + "/Qt6/QtCore"@, compat[2]);
}

proof fn lemma_lower_root(base: Seq<char>)
    requires
        base.len() > 0,
        base.last() != '/',
    ensures
        joined(joined(base, "qt6"@), "QtGui"@) == base + "/qt6/QtGui"@,
        joined(joined(base, "qt6"@), "QtWidgets"@) == base + "/qt6/QtWidgets"@,
{
    lemma_below_base(base);
    reveal_strlit("/qt6");
    reveal_strlit("/QtGui");
    reveal_strlit("/QtWidgets");
    reveal_strlit("/qt6/QtGui");
    reveal_strlit("/qt6/QtWidgets");
    lemma_below_base(base + "/qt6"@);
    assert("/qt6"@ + "/QtGui"@ == "/qt6/QtGui"@);
    assert("/qt6"@ + "/QtWidgets"@ == "/qt6/QtWidgets"@);
    assert(base + "/qt6"@ + "/QtGui"@ == base + ("/qt6"@ + "/QtGui"@));
    assert(base + "/qt6"@ + "/QtWidgets"@ == base + ("/qt6"@ + "/QtWidgets"@));
}

proof fn lemma_upper_root(base: Seq<char>)
    requires
        base.len() > 0,
        base.last() != '/',
    ensures
        joined(joined(base, "Qt6"@), "QtGui"@) == base + "/Qt6/QtGui"@,
        joined(joined(base, "Qt6"@), "QtWidgets"@) == base + "/Qt6/QtWidgets"@,
{
    lemma_below_base(base);
    reveal_strlit("/Qt6");
    reveal_strlit("/QtGui");
    reveal_strlit("/QtWidgets");
    reveal_strlit("/Qt6/QtGui");
    reveal_strlit("/Qt6/QtWidgets");
    lemma_below_base(base + "/Qt6"@);
    assert("/Qt6"@ + "/QtGui"@ == "/Qt6/QtGui"@);
    assert("/Qt6"@ + "/QtWidgets"@ == "/Qt6/QtWidgets"@);
    assert(base + "/Qt6"@ + "/QtGui"@ == base + ("/Qt6"@ + "/QtGui"@));
    assert(base + "/Qt6"@ + "/QtWidgets"@ == base + ("/Qt6"@ + "/QtWidgets"@));
}

proof fn lemma_module_dirs(
    root: Seq<char>,
    names: Seq<Seq<char>>,
    core: Seq<char>,
    compat: Seq<Seq<char>>,
)
    requires
        joined(root, "QtCore"@) == core,
        core.len() > 0,
        core.last() != '/',
        compat.len() == versions(names).len(),
        forall|i: int|
            0 <= i < compat.len() ==> #[trigger] compat[i] == core + seq!['/'] + versions(names)[i]
                + "/compat"@,
    ensures
        module_dirs(root, names) == seq![root, core] + compat + seq![
            joined(root, "QtGui"@),
            joined(root, "QtWidgets"@),
        ],
{
    let made = versions(names).map_values(|v: Seq<char>| joined(joined(core, v), "compat"@));
    assert forall|i: int| 0 <= i < compat.len() implies made[i] == compat[i] by {
        let v = versions(names)[i];
        lemma_version_of(names, i);
        reveal_strlit("compat");
        reveal_strlit("/compat");
        assert(joined(core, v) == core + seq!['/'] + v);
        assert("/compat"@ == seq!['/'] + "compat"@);
        assert(joined(core, v).push('/') + "compat"@ == joined(core, v) + (seq!['/']
            + "compat"@));
        assert(v.last() != '/');
        assert(joined(core, v).last() == v.last());
    }
    assert(made == compat);
}

proof fn lemma_version_of(names: Seq<Seq<char>>, i: int)
    requires
        0 <= i < versions(names).len(),
    ensures
        is_version(versions(names)[i]),
{
    let keep = |n: Seq<char>| is_version(n);
    let found = names.filter(keep);
    let v = versions(names)[i];
    law_sorted_paths(found);
    broadcast use vstd::seq_lib::group_to_multiset_ensures;

    assert(versions(names).contains(v));
    assert(found.to_multiset().count(v) > 0);
    assert(found.contains(v));
    let k = choose|k: int| 0 <= k < found.len() && found[k] == v;
    names.lemma_filter_pred(keep, k);
}

/// The names of a directory that was listed are those of its listing, and a directory
/// that was not has none.
pub proof fn law_listing(listings: Seq<Seq<Seq<char>>>, k: int)
    ensures
        0 <= k < listings.len() ==> listing(listings, k) == listings[k],
        k >= listings.len() ==> listing(listings, k) == Seq::<Seq<char>>::empty(),
{
}

/// The include directories begin with the base. A further candidate is put behind them
/// where it exists and none of them is the same, and changes nothing otherwise.
pub proof fn law_include_dirs_grow(
    base: Seq<char>,
    candidates: Seq<Seq<char>>,
    exists_there: Seq<bool>,
    dir: Seq<char>,
    is_there: bool,
)
    requires
        exists_there.len() == candidates.len(),
    ensures
        include_dirs(base, Seq::empty(), Seq::empty()) == seq![base],
        ({
            let before = include_dirs(base, candidates, exists_there);
            let after = include_dirs(base, candidates.push(dir), exists_there.push(is_there));
            if is_there && (forall|i: int|
                0 <= i < before.len() ==> !same_path(#[trigger] before[i], dir)) {
                after == before.push(dir)
            } else {
                after == before
            }
        }),
{
    let n = candidates.len();
    let before = include_dirs(base, candidates, exists_there);
    lemma_dirs_taken_alike(
        base,
        candidates,
        exists_there,
        candidates.push(dir),
        exists_there.push(is_there),
        n,
    );
    assert(candidates.push(dir)[n as int] == dir);
    assert(exists_there.push(is_there)[n as int] == is_there);
    assert(has_path(before, dir) <==> !(forall|i: int|
        0 <= i < before.len() ==> !same_path(#[trigger] before[i], dir)));
}

spec fn is_answered(answers: Seq<bool>, i: int) -> bool {
    i < answers.len() && answers[i]
}

proof fn lemma_dirs_taken_alike(
    base: Seq<char>,
    a: Seq<Seq<char>>,
    at_a: Seq<bool>,
    b: Seq<Seq<char>>,
    at_b: Seq<bool>,
    n: nat,
)
    requires
        n <= a.len(),
        n <= b.len(),
        forall|i: int| 0 <= i < n ==> a[i] == b[i],
        forall|i: int| 0 <= i < n ==> is_answered(at_a, i) == #[trigger] is_answered(at_b, i),
    ensures
        dirs_taken(base, a, at_a, n) == dirs_taken(base, b, at_b, n),
    decreases n,
{
    if n > 0 {
        lemma_dirs_taken_alike(base, a, at_a, b, at_b, (n - 1) as nat);
        assert(is_answered(at_a, n - 1) == is_answered(at_b, n - 1));
        assert(a[n - 1] == b[n - 1]);
    }
}

/// Wherever the base is, and also where it is unknown, the directories that may hold
/// headers are those of the base, of its `qt6` and of its `Qt6`, in this order.
pub proof fn law_header_dirs_of_any_base(
    base: Seq<char>,
    listings: Seq<Seq<Seq<char>>>,
    compat: Seq<Seq<Seq<char>>>,
)
    requires
        compat.len() == 3,
        forall|k: int|
            0 <= k < 3 ==> (#[trigger] compat[k]).len() == versions(listing(listings, k)).len(),
        forall|i: int|
            0 <= i < compat[0].len() ==> #[trigger] compat[0][i] == joined(
                joined(joined(base, "QtCore"@), versions(listing(listings, 0))[i]),
                "compat"@,
            ),
        forall|i: int|
            0 <= i < compat[1].len() ==> #[trigger] compat[1][i] == joined(
                joined(joined(joined(base, "qt6"@), "QtCore"@), versions(listing(listings, 1))[i]),
                "compat"@,
            ),
        forall|i: int|
            0 <= i < compat[2].len() ==> #[trigger] compat[2][i] == joined(
                joined(joined(joined(base, "Qt6"@), "QtCore"@), versions(listing(listings, 2))[i]),
                "compat"@,
            ),
    ensures
        header_dirs(base, listings) == seq![base, joined(base, "QtCore"@)] + compat[0] + seq![
            joined(base, "QtGui"@),
            joined(base, "QtWidgets"@),
        ] + (seq![joined(base, "qt6"@), joined(joined(base, "qt6"@), "QtCore"@)] + compat[1] + seq![
            joined(joined(base, "qt6"@), "QtGui"@),
            joined(joined(base, "qt6"@), "QtWidgets"@),
        ]) + (seq![joined(base, "Qt6"@), joined(joined(base, "Qt6"@), "QtCore"@)] + compat[2]
            + seq![
            joined(joined(base, "Qt6"@), "QtGui"@),
            joined(joined(base, "Qt6"@), "QtWidgets"@),
        ]),
        core_dirs(base) == seq![
            joined(base, "QtCore"@),
            joined(joined(base, "qt6"@), "QtCore"@),
            joined(joined(base, "Qt6"@), "QtCore"@),
        ],
{
    assert(compat[0].len() == versions(listing(listings, 0)).len());
    assert(compat[1].len() == versions(listing(listings, 1)).len());
    assert(compat[2].len() == versions(listing(listings, 2)).len());
    lemma_compat_dirs(base, listing(listings, 0), compat[0]);
    lemma_compat_dirs(joined(base, "qt6"@), listing(listings, 1), compat[1]);
    lemma_compat_dirs(joined(base, "Qt6"@), listing(listings, 2), compat[2]);
}

proof fn lemma_compat_dirs(root: Seq<char>, names: Seq<Seq<char>>, compat: Seq<Seq<char>>)
    requires
        compat.len() == versions(names).len(),
        forall|i: int|
            0 <= i < compat.len() ==> #[trigger] compat[i] == joined(
                joined(joined(root, "QtCore"@), versions(names)[i]),
                "compat"@,
            ),
    ensures
        module_dirs(root, names) == seq![root, joined(root, "QtCore"@)] + compat + seq![
            joined(root, "QtGui"@),
            joined(root, "QtWidgets"@),
        ],
{
    let core = joined(root, "QtCore"@);
    let made = versions(names).map_values(|v: Seq<char>| joined(joined(core, v), "compat"@));
    assert(made == compat);
}

/// A candidate without an answer does not exist, and an answer without a candidate says
/// nothing.
pub proof fn law_answers_belong_to_candidates(
    base: Seq<char>,
    candidates: Seq<Seq<char>>,
    exists_there: Seq<bool>,
    dir: Seq<char>,
)
    ensures
        exists_there.len() <= candidates.len() ==> include_dirs(
            base,
            candidates.push(dir),
            exists_there,
        ) == include_dirs(base, candidates, exists_there),
        exists_there.len() >= candidates.len() ==> include_dirs(base, candidates, exists_there)
            == include_dirs(base, candidates, exists_there.take(candidates.len() as int)),
{
    let n = candidates.len();
    lemma_dirs_taken_alike(base, candidates, exists_there, candidates.push(dir), exists_there, n);
    if exists_there.len() >= n {
        lemma_dirs_taken_alike(
            base,
            candidates,
            exists_there,
            candidates,
            exists_there.take(n as int),
            n,
        );
    }
}

} // verus!
