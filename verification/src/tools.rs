//! Where Qt's `uic` and `rcc` are looked for, and which of them is taken.
use crate::path::{
    join, joined, law_split, law_split_pieces, lemma_split_at, pieces, split, split_chars, unsplit,
};
use crate::text::{from_chars, opt_text, texts};
use vstd::prelude::*;

verus! {

/// The names under which `rcc` may be installed, most preferred first.
pub open spec fn rcc_names() -> Seq<Seq<char>> {
    seq!["rcc6"@, "rcc-qt6"@, "rcc5"@, "rcc-qt5"@, "rcc"@]
}

/// The names under which `uic` may be installed, most preferred first.
pub open spec fn uic_names() -> Seq<Seq<char>> {
    seq!["uic6"@, "uic-qt6"@, "uic5"@, "uic-qt5"@, "uic"@]
}

/// Name candidates for the `rcc` binary, most preferred first.
pub fn rcc_candidates() -> (r: Vec<String>)
    ensures
        texts(r@) == rcc_names(),
{
    let r = vec![
        "rcc6".to_owned(),
        "rcc-qt6".to_owned(),
        "rcc5".to_owned(),
        "rcc-qt5".to_owned(),
        "rcc".to_owned(),
    ];
    assert(texts(r@) == rcc_names());
    r
}

/// Name candidates for the `uic` binary, most preferred first.
pub fn uic_candidates() -> (r: Vec<String>)
    ensures
        texts(r@) == uic_names(),
{
    let r = vec![
        "uic6".to_owned(),
        "uic-qt6".to_owned(),
        "uic5".to_owned(),
        "uic-qt5".to_owned(),
        "uic".to_owned(),
    ];
    assert(texts(r@) == uic_names());
    r
}

/// What a tool configuration says.
pub struct ToolsModel {
    /// The directories that are searched behind those of `PATH`, in order.
    pub bins: Seq<Seq<char>>,
    /// Whether no tool is to be found at all.
    pub noop: bool,
}

/// `uic`/`rcc` lookup configuration.
///
/// [`QtTools::add_qt_bin`] appends a directory to the search path, so that you
/// can point it at, e.g., Qt6's `QT_HOST_BINS`.
#[derive(Debug)]
pub struct QtTools {
    bins: Vec<String>,
    noop: bool,
}

impl View for QtTools {
    type V = ToolsModel;

    closed spec fn view(&self) -> ToolsModel {
        ToolsModel { bins: texts(self.bins@), noop: self.noop }
    }
}

impl Default for QtTools {
    /// `PATH` only.
    fn default() -> (r: Self)
        ensures
            r@ == (ToolsModel { bins: Seq::empty(), noop: false }),
    {
        let r = QtTools { bins: Vec::new(), noop: false };
        assert(texts(r.bins@) == Seq::<Seq<char>>::empty());
        r
    }
}

impl Clone for QtTools {
    fn clone(&self) -> (r: Self)
        ensures
            r@ == self@,
    {
        let bins = clone_strings(&self.bins);
        QtTools { bins, noop: self.noop }
    }
}

/// A copy of a list of strings.
pub fn clone_strings(list: &Vec<String>) -> (r: Vec<String>)
    ensures
        r@ == list@,
{
    let mut out: Vec<String> = Vec::new();
    let mut i: usize = 0;
    while i < list.len()
        invariant
            i <= list@.len(),
            out@ == list@.take(i as int),
        decreases list@.len() - i,
    {
        out.push(list[i].clone());
        i += 1;
    }
    out
}

/// The bin directory of a Qt6 installation.
pub open spec fn qt6_bin() -> Seq<char> {
    "/usr/lib/qt6/bin"@
}

/// The bin directory of a Qt5 installation.
pub open spec fn qt5_bin() -> Seq<char> {
    "/usr/lib/qt5/bin"@
}

/// `PATH` plus the common Qt6/Qt5 bin directories, Qt6's first.
pub open spec fn unix_tools() -> ToolsModel {
    ToolsModel { bins: seq![qt6_bin(), qt5_bin()], noop: false }
}

/// What names a directory.
pub trait DirText: Sized {
    /// The directory's path.
    spec fn text(&self) -> Seq<char>;

    /// The directory's path.
    fn into_text(self) -> (r: String)
        ensures
            r@ == self.text(),
    ;
}

impl<'a> DirText for &'a str {
    open spec fn text(&self) -> Seq<char> {
        (*self)@
    }

    fn into_text(self) -> (r: String) {
        self.to_owned()
    }
}

impl DirText for String {
    open spec fn text(&self) -> Seq<char> {
        self@
    }

    fn into_text(self) -> (r: String) {
        self
    }
}

impl QtTools {
    /// Build from `PATH` plus the common Qt5/Qt6 bin directories.
    pub fn unix() -> (r: Self)
        ensures
            r@ == unix_tools(),
    {
        let r = Self::default().add_qt_bin("/usr/lib/qt6/bin").add_qt_bin("/usr/lib/qt5/bin");
        assert(r@.bins == seq![qt6_bin(), qt5_bin()]);
        r
    }

    /// Same as [`Self::unix`]; kept as an explicit alias.
    pub fn unix5() -> (r: Self)
        ensures
            r@ == unix_tools(),
    {
        Self::unix()
    }

    /// Same as [`Self::unix`] but with Qt6's bin dir first.
    pub fn unix6() -> (r: Self)
        ensures
            r@ == unix_tools(),
    {
        let r = Self::default().add_qt_bin("/usr/lib/qt6/bin").add_qt_bin("/usr/lib/qt5/bin");
        assert(r@.bins == seq![qt6_bin(), qt5_bin()]);
        r
    }

    /// Add a directory to the search path for `uic`/`rcc`. The directory need
    /// not exist yet; it is only consulted lazily.
    pub fn add_qt_bin(self, dir: impl DirText) -> (r: Self)
        ensures
            r@ == (ToolsModel { bins: self@.bins.push(dir.text()), noop: self@.noop }),
    {
        let mut bins = self.bins;
        bins.push(dir.into_text());
        assert(texts(bins@) == texts(self.bins@).push(dir.text()));
        QtTools { bins, noop: self.noop }
    }

    /// Force a no-op (e.g. in CI where Qt tools are absent).
    pub fn force_noop(self) -> (r: Self)
        ensures
            r@ == (ToolsModel { bins: self@.bins, noop: true }),
    {
        QtTools { bins: self.bins, noop: true }
    }

    /// Whether no tool is to be found at all.
    pub(crate) fn is_noop(&self) -> (r: bool)
        ensures
            r == self@.noop,
    {
        self.noop
    }
}

/// The directories that the variable `PATH` lists; none where it is not set.
pub open spec fn path_dirs(path_var: Option<Seq<char>>) -> Seq<Seq<char>> {
    match path_var {
        Some(v) => split(v, ':'),
        None => Seq::empty(),
    }
}

/// The directories that are searched: those of `PATH`, then the configured ones.
pub open spec fn search_dirs(tools: ToolsModel, path_var: Option<Seq<char>>) -> Seq<Seq<char>> {
    path_dirs(path_var) + tools.bins
}

/// Every name in every directory: all names in the first directory, then all
/// names in the second, and so on.
pub open spec fn names_in_dirs(dirs: Seq<Seq<char>>, names: Seq<Seq<char>>) -> Seq<Seq<char>>
    decreases dirs.len(),
{
    if dirs.len() == 0 {
        Seq::empty()
    } else {
        names_in_dirs(dirs.drop_last(), names) + names.map_values(
            |name: Seq<char>| joined(dirs.last(), name),
        )
    }
}

/// The files that may be the tool, most preferred first.
pub open spec fn search_list(
    tools: ToolsModel,
    names: Seq<Seq<char>>,
    path_var: Option<Seq<char>>,
) -> Seq<Seq<char>> {
    names_in_dirs(search_dirs(tools, path_var), names)
}

fn add_names(dir: &str, names: &Vec<String>, out: &mut Vec<String>)
    ensures
        texts(final(out)@) == texts(old(out)@) + texts(names@).map_values(
            |name: Seq<char>| joined(dir@, name),
        ),
{
    let ghost added = texts(names@).map_values(|name: Seq<char>| joined(dir@, name));
    let mut i: usize = 0;
    assert(texts(out@) == texts(old(out)@) + added.take(0));
    while i < names.len()
        invariant
            i <= names@.len(),
            added == texts(names@).map_values(|name: Seq<char>| joined(dir@, name)),
            texts(out@) == texts(old(out)@) + added.take(i as int),
        decreases names@.len() - i,
    {
        let ghost before = texts(out@);
        out.push(join(dir, names[i].as_str()));
        assert(texts(out@) == before.push(added[i as int]));
        assert(added.take(i + 1) == added.take(i as int).push(added[i as int]));
        i += 1;
    }
    assert(added.take(names@.len() as int) == added);
}

/// The directories that the variable `PATH` lists; none where it is not set.
pub fn split_path_var(path_var: &Option<String>) -> (r: Vec<String>)
    ensures
        texts(r@) == path_dirs(opt_text(*path_var)),
{
    let mut out: Vec<String> = Vec::new();
    if let Some(v) = path_var {
        let parts = split_chars(v.as_str(), ':');
        let mut i: usize = 0;
        assert(texts(out@) == pieces(parts@).take(0));
        while i < parts.len()
            invariant
                i <= parts@.len(),
                texts(out@) == pieces(parts@).take(i as int),
            decreases parts@.len() - i,
        {
            let ghost before = texts(out@);
            out.push(from_chars(&parts[i], 0, parts[i].len()));
            assert(parts@[i as int]@.subrange(0, parts@[i as int]@.len() as int)
                == parts@[i as int]@);
            assert(texts(out@) == before.push(pieces(parts@)[i as int]));
            assert(pieces(parts@).take(i + 1) == pieces(parts@).take(i as int).push(
                pieces(parts@)[i as int],
            ));
            i += 1;
        }
        assert(pieces(parts@).take(parts@.len() as int) == pieces(parts@));
    } else {
        assert(texts(out@) == Seq::<Seq<char>>::empty());
    }
    out
}

/// The files that may be the tool, most preferred first: the candidate names
/// in each directory of `PATH`, then in each configured directory.
pub fn candidate_files(tools: &QtTools, candidates: &Vec<String>, path_var: &Option<String>) -> (r:
    Vec<String>)
    ensures
        texts(r@) == search_list(tools@, texts(candidates@), opt_text(*path_var)),
{
    let from_path = split_path_var(path_var);
    let ghost dirs = search_dirs(tools@, opt_text(*path_var));
    let ghost names = texts(candidates@);
    let ghost n_path = from_path@.len() as int;
    let mut out: Vec<String> = Vec::new();
    let mut i: usize = 0;
    assert(texts(out@) == names_in_dirs(dirs.take(0), names));
    while i < from_path.len()
        invariant
            i <= from_path@.len(),
            names == texts(candidates@),
            dirs == texts(from_path@) + tools@.bins,
            texts(out@) == names_in_dirs(dirs.take(i as int), names),
        decreases from_path@.len() - i,
    {
        assert(dirs.take(i + 1).drop_last() == dirs.take(i as int));
        assert(dirs.take(i + 1).last() == from_path@[i as int]@);
        add_names(from_path[i].as_str(), candidates, &mut out);
        i += 1;
    }
    let mut k: usize = 0;
    while k < tools.bins.len()
        invariant
            k <= tools.bins@.len(),
            names == texts(candidates@),
            n_path == from_path@.len(),
            dirs == texts(from_path@) + tools@.bins,
            texts(out@) == names_in_dirs(dirs.take(n_path + k), names),
        decreases tools.bins@.len() - k,
    {
        assert(dirs.take(n_path + k + 1).drop_last() == dirs.take(n_path + k));
        assert(dirs.take(n_path + k + 1).last() == tools.bins@[k as int]@);
        add_names(tools.bins[k].as_str(), candidates, &mut out);
        k += 1;
    }
    assert(dirs.take(n_path + tools.bins@.len()) == dirs);
    out
}

/// The first path of `list` that `hits` marks; a path without a mark is none.
pub open spec fn first_marked(list: Seq<Seq<char>>, hits: Seq<bool>) -> Option<Seq<char>>
    decreases list.len(),
{
    if list.len() == 0 || hits.len() == 0 {
        None
    } else if hits.first() {
        Some(list.first())
    } else {
        first_marked(list.drop_first(), hits.drop_first())
    }
}

/// The tool that is found: the first of the searched files that can be run.
/// A no-op configuration finds none.
pub open spec fn found_tool(
    tools: ToolsModel,
    names: Seq<Seq<char>>,
    path_var: Option<Seq<char>>,
    can_run: Seq<bool>,
) -> Option<Seq<char>> {
    if tools.noop {
        None
    } else {
        first_marked(search_list(tools, names, path_var), can_run)
    }
}

/// Locate the first runnable binary matching a candidate name, walking `PATH` and
/// then the configured bin dirs. `can_run[i]` tells whether the `i`-th of the
/// [`candidate_files`] is a file that can be run.
pub fn which(
    tools: &QtTools,
    candidates: &Vec<String>,
    path_var: &Option<String>,
    can_run: &Vec<bool>,
) -> (r: Option<String>)
    ensures
        opt_text(r) == found_tool(tools@, texts(candidates@), opt_text(*path_var), can_run@),
{
    if tools.noop {
        return None;
    }
    let list = candidate_files(tools, candidates, path_var);
    let ghost all = texts(list@);
    let mut i: usize = 0;
    assert(all.skip(0) == all);
    assert(can_run@.skip(0) == can_run@);
    while i < list.len() && i < can_run.len()
        invariant
            i <= list@.len(),
            i <= can_run@.len(),
            all == texts(list@),
            !tools@.noop,
            all == search_list(tools@, texts(candidates@), opt_text(*path_var)),
            first_marked(all, can_run@) == first_marked(all.skip(i as int), can_run@.skip(i as int)),
        decreases list@.len() - i,
    {
        assert(all.skip(i as int).drop_first() == all.skip(i + 1));
        assert(can_run@.skip(i as int).drop_first() == can_run@.skip(i + 1));
        if can_run[i] {
            return Some(list[i].clone());
        }
        i += 1;
    }
    None
}

/// The marked path that is taken is the first one that is marked, and one is
/// taken wherever one is marked.
pub proof fn law_first_marked(list: Seq<Seq<char>>, hits: Seq<bool>)
    ensures
        match first_marked(list, hits) {
            Some(p) => exists|i: int|
                {
                    &&& 0 <= i < list.len()
                    &&& i < hits.len()
                    &&& #[trigger] hits[i]
                    &&& p == list[i]
                    &&& forall|j: int| 0 <= j < i ==> !#[trigger] hits[j]
                },
            None => forall|i: int| 0 <= i < list.len() && i < hits.len() ==> !#[trigger] hits[i],
        },
    decreases list.len(),
{
    if list.len() > 0 && hits.len() > 0 {
        if hits.first() {
            assert(hits[0]);
        } else {
            let rest = hits.drop_first();
            law_first_marked(list.drop_first(), rest);
            match first_marked(list, hits) {
                Some(p) => {
                    let i = choose|i: int|
                        {
                            &&& 0 <= i < list.drop_first().len()
                            &&& i < rest.len()
                            &&& #[trigger] rest[i]
                            &&& p == list.drop_first()[i]
                            &&& forall|j: int| 0 <= j < i ==> !#[trigger] rest[j]
                        };
                    assert(hits[i + 1]);
                    assert(p == list[i + 1]);
                    assert forall|j: int| 0 <= j < i + 1 implies !#[trigger] hits[j] by {
                        if j > 0 {
                            assert(!rest[j - 1]);
                        }
                    }
                },
                None => {
                    assert forall|i: int|
                        0 <= i < list.len() && i < hits.len() implies !#[trigger] hits[i] by {
                        if i > 0 {
                            assert(!rest[i - 1]);
                        }
                    }
                },
            }
        }
    }
}

/// The file that is looked at `d * names.len() + k`-th is the `k`-th name in
/// the `d`-th directory: a directory is left only after every name was looked
/// for in it.
pub proof fn law_names_in_dirs(dirs: Seq<Seq<char>>, names: Seq<Seq<char>>, d: int, k: int)
    requires
        0 <= d < dirs.len(),
        0 <= k < names.len(),
    ensures
        names_in_dirs(dirs, names).len() == dirs.len() * names.len(),
        0 <= d * names.len() + k < dirs.len() * names.len(),
        names_in_dirs(dirs, names)[d * names.len() + k] == joined(dirs[d], names[k]),
    decreases dirs.len(),
{
    let n = names.len() as int;
    let len = dirs.len() as int;
    let head = names_in_dirs(dirs.drop_last(), names);
    lemma_names_in_dirs_len(dirs, names);
    lemma_names_in_dirs_len(dirs.drop_last(), names);
    assert(0 <= d * n + k < len * n) by (nonlinear_arith)
        requires
            0 <= d < len,
            0 <= k < n,
    ;
    if d < len - 1 {
        law_names_in_dirs(dirs.drop_last(), names, d, k);
    } else {
        assert(d * n == (len - 1) * n);
        assert(names_in_dirs(dirs, names)[d * n + k] == names.map_values(
            |name: Seq<char>| joined(dirs.last(), name),
        )[k]);
    }
}

proof fn lemma_names_in_dirs_len(dirs: Seq<Seq<char>>, names: Seq<Seq<char>>)
    ensures
        names_in_dirs(dirs, names).len() == dirs.len() * names.len(),
    decreases dirs.len(),
{
    if dirs.len() > 0 {
        lemma_names_in_dirs_len(dirs.drop_last(), names);
        let n = names.len() as int;
        let len = dirs.len() as int;
        assert((len - 1) * n + n == len * n) by (nonlinear_arith);
    }
}

/// A directory of `PATH` is looked at before every configured one: whatever is
/// configured, a tool that `PATH` leads to is the tool that is found.
pub proof fn law_path_goes_first(
    tools: ToolsModel,
    names: Seq<Seq<char>>,
    path_var: Option<Seq<char>>,
    can_run: Seq<bool>,
)
    requires
        !tools.noop,
        first_marked(names_in_dirs(path_dirs(path_var), names), can_run) is Some,
    ensures
        found_tool(tools, names, path_var, can_run) == first_marked(
            names_in_dirs(path_dirs(path_var), names),
            can_run,
        ),
{
    let tail = lemma_names_in_more_dirs(path_dirs(path_var), tools.bins, names);
    lemma_first_marked_in_front(names_in_dirs(path_dirs(path_var), names), tail, can_run);
}

proof fn lemma_names_in_more_dirs(
    front: Seq<Seq<char>>,
    back: Seq<Seq<char>>,
    names: Seq<Seq<char>>,
) -> (tail: Seq<Seq<char>>)
    ensures
        names_in_dirs(front + back, names) == names_in_dirs(front, names) + tail,
    decreases back.len(),
{
    if back.len() == 0 {
        assert(front + back == front);
        assert(names_in_dirs(front, names) + Seq::<Seq<char>>::empty() == names_in_dirs(
            front,
            names,
        ));
        Seq::empty()
    } else {
        let tail = lemma_names_in_more_dirs(front, back.drop_last(), names);
        let last = names.map_values(|name: Seq<char>| joined(back.last(), name));
        assert((front + back).drop_last() == front + back.drop_last());
        assert((front + back).last() == back.last());
        assert(names_in_dirs(front + back, names) == names_in_dirs(front, names) + (tail + last));
        tail + last
    }
}

proof fn lemma_first_marked_in_front(
    front: Seq<Seq<char>>,
    back: Seq<Seq<char>>,
    hits: Seq<bool>,
)
    requires
        first_marked(front, hits) is Some,
    ensures
        first_marked(front + back, hits) == first_marked(front, hits),
    decreases front.len(),
{
    assert((front + back).first() == front.first());
    if !hits.first() {
        assert((front + back).drop_first() == front.drop_first() + back);
        lemma_first_marked_in_front(front.drop_first(), back, hits.drop_first());
    }
}

/// `rcc` and `uic` are looked for under the same five names but for the tool's own: that
/// of Qt6 first, and the bare name last.
pub proof fn law_tool_names()
    ensures
        rcc_names() == seq!["rcc6"@, "rcc-qt6"@, "rcc5"@, "rcc-qt5"@, "rcc"@],
        uic_names() == seq!["uic6"@, "uic-qt6"@, "uic5"@, "uic-qt5"@, "uic"@],
{
}

/// Unless told otherwise, the bin directory of Qt6 is searched and then that of Qt5.
pub proof fn law_unix_tools()
    ensures
        unix_tools().bins == seq!["/usr/lib/qt6/bin"@, "/usr/lib/qt5/bin"@],
        !unix_tools().noop,
{
}

/// What stands before the first `:` of the variable is the first directory, and the
/// others are those of what stands behind it; without a `:` it is one directory. Where
/// the variable is not set there is none.
pub proof fn law_path_dirs(d: Seq<char>, rest: Seq<char>)
    requires
        !d.contains(':'),
    ensures
        path_dirs(Some(d)) == seq![d],
        path_dirs(Some(d + seq![':'] + rest)) == seq![d] + path_dirs(Some(rest)),
        path_dirs(None) == Seq::<Seq<char>>::empty(),
{
    law_split_pieces(d, rest, ':');
}

/// The directories with `:` between each two of them are the variable again, and none of
/// them holds a `:`: so none is left out, and none is cut.
pub proof fn law_path_dirs_are_the_variable(v: Seq<char>)
    ensures
        unsplit(path_dirs(Some(v)), ':') == v,
        forall|i: int|
            0 <= i < path_dirs(Some(v)).len() ==> !(#[trigger] path_dirs(Some(v))[i]).contains(':'),
{
    law_split(v, ':');
}

/// The searched files are, for each directory of the variable and then for each
/// configured one, the names in it, one after the other.
pub proof fn law_search_list(
    tools: ToolsModel,
    names: Seq<Seq<char>>,
    path_var: Option<Seq<char>>,
    d: int,
    k: int,
)
    requires
        0 <= d < path_dirs(path_var).len() + tools.bins.len(),
        0 <= k < names.len(),
    ensures
        search_list(tools, names, path_var).len() == (path_dirs(path_var).len() + tools.bins.len())
            * names.len(),
        0 <= d * names.len() + k < search_list(tools, names, path_var).len(),
        search_list(tools, names, path_var)[d * names.len() + k] == joined(
            if d < path_dirs(path_var).len() {
                path_dirs(path_var)[d]
            } else {
                tools.bins[d - path_dirs(path_var).len()]
            },
            names[k],
        ),
{
    law_names_in_dirs(search_dirs(tools, path_var), names, d, k);
}

/// The tool that is found is the first of the searched files that can be run. None is
/// found where none of them can be run, or where the tools are switched off.
pub proof fn law_found_tool(
    tools: ToolsModel,
    names: Seq<Seq<char>>,
    path_var: Option<Seq<char>>,
    can_run: Seq<bool>,
    i: int,
)
    ensures
        tools.noop ==> found_tool(tools, names, path_var, can_run) is None,
        !tools.noop && 0 <= i < search_list(tools, names, path_var).len() && i < can_run.len()
            && can_run[i] && (forall|j: int| 0 <= j < i ==> !#[trigger] can_run[j]) ==> found_tool(
            tools,
            names,
            path_var,
            can_run,
        ) == Some(search_list(tools, names, path_var)[i]),
        (forall|j: int|
            0 <= j < search_list(tools, names, path_var).len() && j < can_run.len()
                ==> !#[trigger] can_run[j]) ==> found_tool(tools, names, path_var, can_run) is None,
{
    let list = search_list(tools, names, path_var);
    law_first_marked(list, can_run);
    match first_marked(list, can_run) {
        Some(p) => {
            let m = choose|m: int|
                {
                    &&& 0 <= m < list.len()
                    &&& m < can_run.len()
                    &&& #[trigger] can_run[m]
                    &&& p == list[m]
                    &&& forall|j: int| 0 <= j < m ==> !#[trigger] can_run[j]
                };
            assert(can_run[m]);
        },
        None => {},
    }
}

/// Wherever a directory stands in the variable, between two `:` or at one of its ends,
/// each name is looked for in it; and where the file that is there can be run, some tool
/// is found.
pub proof fn law_every_path_dir_is_searched(
    tools: ToolsModel,
    names: Seq<Seq<char>>,
    front: Seq<char>,
    d: Seq<char>,
    back: Seq<char>,
    k: int,
    can_run: Seq<bool>,
)
    requires
        front.len() == 0 || front.last() == ':',
        back.len() == 0 || back.first() == ':',
        !d.contains(':'),
        0 <= k < names.len(),
    ensures
        exists|i: int|
            {
                &&& 0 <= i < search_list(tools, names, Some(front + d + back)).len()
                &&& #[trigger] search_list(tools, names, Some(front + d + back))[i] == joined(
                    d,
                    names[k],
                )
                &&& !tools.noop && i < can_run.len() && can_run[i] ==> found_tool(
                    tools,
                    names,
                    Some(front + d + back),
                    can_run,
                ) is Some
            },
{
    let v = front + d + back;
    let dirs = path_dirs(Some(v));
    let at = lemma_piece_at(front, d, back);
    assert(dirs[at] == d);
    law_search_list(tools, names, Some(v), at, k);
    let i = at * names.len() + k;
    let list = search_list(tools, names, Some(v));
    assert(list[i] == joined(d, names[k]));
    law_first_marked(list, can_run);
}

proof fn lemma_piece_at(front: Seq<char>, d: Seq<char>, back: Seq<char>) -> (at: int)
    requires
        front.len() == 0 || front.last() == ':',
        back.len() == 0 || back.first() == ':',
        !d.contains(':'),
    ensures
        0 <= at < split(front + d + back, ':').len(),
        split(front + d + back, ':')[at] == d,
{
    let tail = d + back;
    if back.len() == 0 {
        assert(tail == d);
        law_split_pieces(d, Seq::empty(), ':');
    } else {
        let rest = back.drop_first();
        assert(tail == d + seq![':'] + rest);
        law_split_pieces(d, rest, ':');
    }
    assert(split(tail, ':')[0] == d);
    if front.len() == 0 {
        assert(front + d + back == tail);
        0
    } else {
        let a = front.drop_last();
        assert(front + d + back == a.push(':') + tail);
        lemma_split_at(a, tail, ':');
        split(a, ':').len() as int
    }
}

/// What a configuration says is what it holds.
proof fn law_tools_view(tools: QtTools)
    ensures
        tools@.bins == texts(tools.bins@),
        tools@.noop == tools.noop,
{
}

/// As many files are searched as there are names in all directories.
pub proof fn law_search_list_is_complete(
    tools: ToolsModel,
    names: Seq<Seq<char>>,
    path_var: Option<Seq<char>>,
)
    ensures
        search_list(tools, names, path_var).len() == (path_dirs(path_var).len() + tools.bins.len())
            * names.len(),
{
    lemma_names_in_dirs_len(search_dirs(tools, path_var), names);
}

} // verus!
