//! File paths as text, with `/` between components.
//!
//! Two paths are the same, and one comes before another, by their components:
//! repeated separators, a trailing separator and `.` inside a path do not
//! count.
use crate::text::{from_chars, texts, to_chars};
use vstd::prelude::*;

verus! {

/// `rel` as seen from `base`; an absolute `rel` stands for itself.
pub open spec fn joined(base: Seq<char>, rel: Seq<char>) -> Seq<char> {
    if rel.len() > 0 && rel.first() == '/' {
        rel
    } else if base.len() == 0 || base.last() == '/' {
        base + rel
    } else {
        base.push('/') + rel
    }
}

/// `rel` as seen from `base`; an absolute `rel` stands for itself.
pub fn join(base: &str, rel: &str) -> (r: String)
    ensures
        r@ == joined(base@, rel@),
{
    let rel_chars = to_chars(rel);
    if rel_chars.len() > 0 && rel_chars[0] == '/' {
        return rel.to_owned();
    }
    let base_chars = to_chars(base);
    let mut out = base.to_owned();
    if base_chars.len() > 0 && base_chars[base_chars.len() - 1] != '/' {
        out.push('/');
    }
    out.append(rel);
    out
}

/// The pieces of `s` between the separators, empty ones among them.
pub open spec fn split(s: Seq<char>, sep: char) -> Seq<Seq<char>>
    decreases s.len(),
{
    if s.len() == 0 {
        seq![Seq::empty()]
    } else {
        let head = split(s.drop_last(), sep);
        if s.last() == sep {
            head.push(Seq::empty())
        } else {
            head.drop_last().push(head.last().push(s.last()))
        }
    }
}

/// The texts of a list of character lists.
pub open spec fn pieces(list: Seq<Vec<char>>) -> Seq<Seq<char>> {
    list.map_values(|v: Vec<char>| v@)
}

/// The pieces of `s` between the separators, empty ones among them.
pub fn split_chars(s: &str, sep: char) -> (r: Vec<Vec<char>>)
    ensures
        pieces(r@) == split(s@, sep),
{
    let chars = to_chars(s);
    let mut out: Vec<Vec<char>> = Vec::new();
    let mut piece: Vec<char> = Vec::new();
    let mut i: usize = 0;
    assert(pieces(out@).push(piece@) == split(s@.take(0), sep));
    while i < chars.len()
        invariant
            chars@ == s@,
            i <= chars@.len(),
            pieces(out@).push(piece@) == split(s@.take(i as int), sep),
        decreases chars@.len() - i,
    {
        let c = chars[i];
        let ghost before = pieces(out@).push(piece@);
        assert(s@.take(i + 1).drop_last() == s@.take(i as int));
        assert(before.last() == piece@);
        assert(before.drop_last() == pieces(out@));
        if c == sep {
            out.push(piece);
            assert(pieces(out@) == before);
            piece = Vec::new();
        } else {
            piece.push(c);
        }
        i += 1;
    }
    assert(s@.take(s@.len() as int) == s@);
    let ghost before = pieces(out@).push(piece@);
    out.push(piece);
    assert(pieces(out@) == before);
    out
}

/// A piece that is a component of its own: neither empty nor `.`.
pub open spec fn is_named(piece: Seq<char>) -> bool {
    piece.len() > 0 && piece != seq!['.']
}

/// What a path begins with, before its named pieces: `/` where it is absolute,
/// `.` where it starts at the current directory.
pub open spec fn anchor(p: Seq<char>) -> Seq<Seq<char>> {
    if p.len() > 0 && p.first() == '/' {
        seq![seq!['/']]
    } else if split(p, '/').first() == seq!['.'] {
        seq![seq!['.']]
    } else {
        Seq::empty()
    }
}

/// The components of a path, the root directory as `/`.
pub open spec fn components(p: Seq<char>) -> Seq<Seq<char>> {
    anchor(p) + split(p, '/').filter(|s: Seq<char>| is_named(s))
}

fn components_of(p: &str) -> (r: Vec<Vec<char>>)
    ensures
        pieces(r@) == components(p@),
{
    let split_pieces = split_chars(p, '/');
    let mut out: Vec<Vec<char>> = Vec::new();
    let chars = to_chars(p);
    proof {
        lemma_split_is_not_empty(p@, '/');
    }
    assert(pieces(split_pieces@)[0] == split_pieces@[0]@);
    if chars.len() > 0 && chars[0] == '/' {
        out.push(vec!['/']);
        assert(out@[0]@ == seq!['/']);
    } else if split_pieces[0].len() == 1 && split_pieces[0][0] == '.' {
        assert(split_pieces@[0]@ == seq!['.']);
        out.push(vec!['.']);
        assert(out@[0]@ == seq!['.']);
    }
    assert(pieces(out@) == anchor(p@));
    let ghost keep = |s: Seq<char>| is_named(s);
    let mut i: usize = 0;
    assert(split(p@, '/').take(0).filter(keep) == Seq::<Seq<char>>::empty()) by {
        reveal(Seq::filter);
    }
    while i < split_pieces.len()
        invariant
            i <= split_pieces@.len(),
            pieces(split_pieces@) == split(p@, '/'),
            keep == (|s: Seq<char>| is_named(s)),
            pieces(out@) == anchor(p@) + split(p@, '/').take(i as int).filter(keep),
        decreases split_pieces@.len() - i,
    {
        let ghost before = pieces(out@);
        assert(split(p@, '/')[i as int] == split_pieces@[i as int]@);
        assert(split(p@, '/').take(i + 1) == split(p@, '/').take(i as int).push(
            split_pieces@[i as int]@,
        ));
        proof {
            reveal(Seq::filter);
            assert(split(p@, '/').take(i + 1).drop_last() == split(p@, '/').take(i as int));
        }
        let n: usize = split_pieces[i].len();
        let dot = n == 1 && split_pieces[i][0] == '.';
        if dot {
            assert(split_pieces@[i as int]@ == seq!['.']);
        }
        if n > 0 && !dot {
            let piece = copy_chars(&split_pieces[i]);
            out.push(piece);
            assert(pieces(out@) == before.push(split_pieces@[i as int]@));
        }
        i += 1;
    }
    assert(split(p@, '/').take(split_pieces@.len() as int) == split(p@, '/'));
    out
}

fn copy_chars(v: &Vec<char>) -> (r: Vec<char>)
    ensures
        r@ == v@,
{
    let mut out: Vec<char> = Vec::new();
    let mut i: usize = 0;
    while i < v.len()
        invariant
            i <= v@.len(),
            out@ == v@.take(i as int),
        decreases v@.len() - i,
    {
        out.push(v[i]);
        i += 1;
    }
    out
}

/// Whether the two texts name the same path.
pub open spec fn same_path(a: Seq<char>, b: Seq<char>) -> bool {
    components(a) == components(b)
}

/// Whether `a` stands before `b` or is `b`, by the first character in which
/// they differ.
pub open spec fn lex_le(a: Seq<char>, b: Seq<char>) -> bool
    decreases a.len(),
{
    if a.len() == 0 {
        true
    } else if b.len() == 0 {
        false
    } else if a.first() == b.first() {
        lex_le(a.drop_first(), b.drop_first())
    } else {
        (a.first() as int) < (b.first() as int)
    }
}

/// The rank of a component: the root directory, `.`, `..`, then every name.
pub open spec fn component_rank(c: Seq<char>) -> int {
    if c == seq!['/'] {
        0
    } else if c == seq!['.'] {
        1
    } else if c == seq!['.', '.'] {
        2
    } else {
        3
    }
}

/// The order of components: by rank, and names by their characters.
pub open spec fn component_le(a: Seq<char>, b: Seq<char>) -> bool {
    if component_rank(a) != component_rank(b) {
        component_rank(a) < component_rank(b)
    } else {
        lex_le(a, b)
    }
}

/// The order of component lists: by the first component in which they differ.
pub open spec fn components_le(a: Seq<Seq<char>>, b: Seq<Seq<char>>) -> bool
    decreases a.len(),
{
    if a.len() == 0 {
        true
    } else if b.len() == 0 {
        false
    } else if a.first() == b.first() {
        components_le(a.drop_first(), b.drop_first())
    } else {
        component_le(a.first(), b.first())
    }
}

/// The order of paths: `a` stands before `b` or is the same path.
pub open spec fn path_le(a: Seq<char>, b: Seq<char>) -> bool {
    components_le(components(a), components(b))
}

fn same_chars(a: &Vec<char>, b: &Vec<char>) -> (r: bool)
    ensures
        r == (a@ == b@),
{
    if a.len() != b.len() {
        return false;
    }
    let mut i: usize = 0;
    while i < a.len()
        invariant
            i <= a@.len(),
            a@.len() == b@.len(),
            a@.take(i as int) == b@.take(i as int),
        decreases a@.len() - i,
    {
        if a[i] != b[i] {
            return false;
        }
        assert(a@.take(i + 1) == a@.take(i as int).push(a@[i as int]));
        assert(b@.take(i + 1) == b@.take(i as int).push(b@[i as int]));
        i += 1;
    }
    assert(a@.take(a@.len() as int) == a@);
    assert(b@.take(b@.len() as int) == b@);
    true
}

fn lex_le_chars(a: &Vec<char>, b: &Vec<char>) -> (r: bool)
    ensures
        r == lex_le(a@, b@),
{
    let mut i: usize = 0;
    assert(a@.skip(0) == a@);
    assert(b@.skip(0) == b@);
    while i < a.len() && i < b.len()
        invariant
            i <= a@.len(),
            i <= b@.len(),
            lex_le(a@, b@) == lex_le(a@.skip(i as int), b@.skip(i as int)),
        decreases a@.len() - i,
    {
        assert(a@.skip(i as int).drop_first() == a@.skip(i + 1));
        assert(b@.skip(i as int).drop_first() == b@.skip(i + 1));
        if a[i] != b[i] {
            return a[i] < b[i];
        }
        i += 1;
    }
    i == a.len()
}

fn rank_of(c: &Vec<char>) -> (r: usize)
    ensures
        r == component_rank(c@),
{
    if c.len() == 1 && c[0] == '/' {
        assert(c@ == seq!['/']);
        0
    } else if c.len() == 1 && c[0] == '.' {
        assert(c@ == seq!['.']);
        1
    } else if c.len() == 2 && c[0] == '.' && c[1] == '.' {
        assert(c@ == seq!['.', '.']);
        2
    } else {
        3
    }
}

/// Whether `a` stands before `b` or is the same path.
pub fn path_is_le(a: &str, b: &str) -> (r: bool)
    ensures
        r == path_le(a@, b@),
{
    let ca = components_of(a);
    let cb = components_of(b);
    let ghost sa = components(a@);
    let ghost sb = components(b@);
    let mut i: usize = 0;
    assert(sa.skip(0) == sa);
    assert(sb.skip(0) == sb);
    while i < ca.len() && i < cb.len()
        invariant
            i <= ca@.len(),
            i <= cb@.len(),
            pieces(ca@) == sa,
            pieces(cb@) == sb,
            sa == components(a@),
            sb == components(b@),
            components_le(sa, sb) == components_le(sa.skip(i as int), sb.skip(i as int)),
        decreases ca@.len() - i,
    {
        assert(sa[i as int] == ca@[i as int]@);
        assert(sb[i as int] == cb@[i as int]@);
        assert(sa.skip(i as int).drop_first() == sa.skip(i + 1));
        assert(sb.skip(i as int).drop_first() == sb.skip(i + 1));
        if !same_chars(&ca[i], &cb[i]) {
            let ra: usize = rank_of(&ca[i]);
            let rb: usize = rank_of(&cb[i]);
            if ra != rb {
                return ra < rb;
            }
            return lex_le_chars(&ca[i], &cb[i]);
        }
        i += 1;
    }
    i == ca.len()
}

/// Whether the two texts name the same path.
pub fn is_same_path(a: &str, b: &str) -> (r: bool)
    ensures
        r == same_path(a@, b@),
{
    let ca = components_of(a);
    let cb = components_of(b);
    if ca.len() != cb.len() {
        assert(pieces(ca@).len() != pieces(cb@).len());
        return false;
    }
    let mut i: usize = 0;
    while i < ca.len()
        invariant
            i <= ca@.len(),
            ca@.len() == cb@.len(),
            pieces(ca@) == components(a@),
            pieces(cb@) == components(b@),
            forall|j: int| 0 <= j < i ==> pieces(ca@)[j] == pieces(cb@)[j],
        decreases ca@.len() - i,
    {
        if !same_chars(&ca[i], &cb[i]) {
            assert(pieces(ca@)[i as int] != pieces(cb@)[i as int]);
            return false;
        }
        i += 1;
    }
    assert(pieces(ca@) == pieces(cb@));
    true
}

/// Whether `list` holds a path that is the same as `p`.
pub open spec fn has_path(list: Seq<Seq<char>>, p: Seq<char>) -> bool {
    exists|i: int| 0 <= i < list.len() && same_path(#[trigger] list[i], p)
}

/// Whether `list` holds a path that is the same as `p`.
pub fn contains_path(list: &Vec<String>, p: &str) -> (r: bool)
    ensures
        r == has_path(texts(list@), p@),
{
    let mut i: usize = 0;
    while i < list.len()
        invariant
            i <= list@.len(),
            forall|j: int| 0 <= j < i ==> !same_path(#[trigger] texts(list@)[j], p@),
        decreases list@.len() - i,
    {
        if is_same_path(list[i].as_str(), p) {
            assert(same_path(texts(list@)[i as int], p@));
            return true;
        }
        i += 1;
    }
    false
}

/// `sorted` with `p` put behind every path that does not come after it.
pub open spec fn insert_path(sorted: Seq<Seq<char>>, p: Seq<char>) -> Seq<Seq<char>>
    decreases sorted.len(),
{
    if sorted.len() == 0 || path_le(sorted.last(), p) {
        sorted.push(p)
    } else {
        insert_path(sorted.drop_last(), p).push(sorted.last())
    }
}

/// The paths in order; paths that are the same keep the order that they had.
pub open spec fn sorted_paths(list: Seq<Seq<char>>) -> Seq<Seq<char>>
    decreases list.len(),
{
    if list.len() == 0 {
        Seq::empty()
    } else {
        insert_path(sorted_paths(list.drop_last()), list.last())
    }
}

/// The paths in order; paths that are the same keep the order that they had.
pub fn sort_paths(list: Vec<String>) -> (r: Vec<String>)
    ensures
        texts(r@) == sorted_paths(texts(list@)),
{
    let mut out: Vec<String> = Vec::new();
    let mut i: usize = 0;
    assert(texts(out@) == sorted_paths(texts(list@).take(0)));
    while i < list.len()
        invariant
            i <= list@.len(),
            texts(out@) == sorted_paths(texts(list@).take(i as int)),
        decreases list@.len() - i,
    {
        let p = list[i].clone();
        let ghost sorted = texts(out@);
        let mut at: usize = out.len();
        assert(sorted.take(sorted.len() as int) == sorted);
        assert(sorted.skip(sorted.len() as int) == Seq::<Seq<char>>::empty());
        while at > 0 && !path_is_le(out[at - 1].as_str(), p.as_str())
            invariant
                at <= out@.len(),
                sorted == texts(out@),
                insert_path(sorted, p@) == insert_path(sorted.take(at as int), p@) + sorted.skip(
                    at as int,
                ),
            decreases at,
        {
            assert(sorted[at - 1] == out@[at - 1]@);
            assert(sorted.take(at as int).last() == sorted[at - 1]);
            assert(sorted.take(at as int).drop_last() == sorted.take(at - 1));
            at -= 1;
        }
        if at > 0 {
            assert(sorted[at - 1] == out@[at - 1]@);
            assert(sorted.take(at as int).last() == sorted[at - 1]);
        }
        assert(insert_path(sorted.take(at as int), p@) == sorted.take(at as int).push(p@));
        out.insert(at, p);
        assert(texts(out@) == sorted.take(at as int).push(p@) + sorted.skip(at as int));
        assert(texts(list@).take(i + 1).drop_last() == texts(list@).take(i as int));
        assert(texts(list@).take(i + 1).last() == list@[i as int]@);
        i += 1;
    }
    assert(texts(list@).take(list@.len() as int) == texts(list@));
    out
}

pub proof fn lemma_split_is_not_empty(s: Seq<char>, sep: char)
    ensures
        split(s, sep).len() >= 1,
    decreases s.len(),
{
    if s.len() > 0 {
        lemma_split_is_not_empty(s.drop_last(), sep);
    }
}

/// Joining the pieces of a text with the separator gives the text back, and no
/// piece holds the separator.
pub proof fn law_split(s: Seq<char>, sep: char)
    ensures
        unsplit(split(s, sep), sep) == s,
        forall|i: int| 0 <= i < split(s, sep).len() ==> !(#[trigger] split(s, sep)[i]).contains(sep),
    decreases s.len(),
{
    lemma_split_is_not_empty(s, sep);
    if s.len() > 0 {
        let head = split(s.drop_last(), sep);
        law_split(s.drop_last(), sep);
        lemma_split_is_not_empty(s.drop_last(), sep);
        if s.last() == sep {
            assert(split(s, sep).drop_last() == head);
            assert(unsplit(head, sep).push(sep) + Seq::<char>::empty() == s);
        } else {
            assert(split(s, sep).drop_last() == head.drop_last());
            if head.len() == 1 {
                assert(head.last().push(s.last()) == s);
            } else {
                assert((unsplit(head.drop_last(), sep).push(sep) + head.last()).push(s.last()) == s);
                assert(unsplit(head.drop_last(), sep).push(sep) + head.last().push(s.last()) == s);
            }
            assert forall|i: int| 0 <= i < split(s, sep).len() implies !(#[trigger] split(
                s,
                sep,
            )[i]).contains(sep) by {
                if i < head.len() - 1 {
                    assert(split(s, sep)[i] == head[i]);
                } else {
                    let piece = head.last().push(s.last());
                    if piece.contains(sep) {
                        let k = choose|k: int| 0 <= k < piece.len() && piece[k] == sep;
                        assert(head[head.len() - 1].contains(sep)) by {
                            assert(head.last()[k] == sep);
                        }
                    }
                }
            }
        }
    } else {
        assert(split(s, sep)[0] == Seq::<char>::empty());
    }
}

/// The pieces with one separator between each two of them.
pub open spec fn unsplit(list: Seq<Seq<char>>, sep: char) -> Seq<char>
    decreases list.len(),
{
    if list.len() == 0 {
        Seq::empty()
    } else if list.len() == 1 {
        list.first()
    } else {
        unsplit(list.drop_last(), sep).push(sep) + list.last()
    }
}

proof fn lemma_lex_le_is_an_order(a: Seq<char>, b: Seq<char>, c: Seq<char>)
    ensures
        lex_le(a, a),
        lex_le(a, b) || lex_le(b, a),
        lex_le(a, b) && lex_le(b, a) ==> a == b,
        lex_le(a, b) && lex_le(b, c) ==> lex_le(a, c),
    decreases a.len(),
{
    if a.len() > 0 {
        lemma_lex_le_is_an_order(a.drop_first(), b.drop_first(), c.drop_first());
        if b.len() > 0 && a.first() == b.first() && a.drop_first() == b.drop_first() {
            assert(a == seq![a.first()] + a.drop_first());
            assert(b == seq![b.first()] + b.drop_first());
        }
    } else if b.len() == 0 {
        assert(a == b);
    }
}

proof fn lemma_component_le_is_an_order(a: Seq<char>, b: Seq<char>, c: Seq<char>)
    ensures
        component_le(a, a),
        component_le(a, b) || component_le(b, a),
        component_le(a, b) && component_le(b, a) ==> a == b,
        component_le(a, b) && component_le(b, c) ==> component_le(a, c),
{
    lemma_lex_le_is_an_order(a, b, c);
}

proof fn lemma_components_le_is_an_order(a: Seq<Seq<char>>, b: Seq<Seq<char>>, c: Seq<Seq<char>>)
    ensures
        components_le(a, a),
        components_le(a, b) || components_le(b, a),
        components_le(a, b) && components_le(b, a) ==> a == b,
        components_le(a, b) && components_le(b, c) ==> components_le(a, c),
    decreases a.len(),
{
    if a.len() > 0 {
        lemma_components_le_is_an_order(a.drop_first(), b.drop_first(), c.drop_first());
        lemma_component_le_is_an_order(a.first(), b.first(), c.first());
        lemma_component_le_is_an_order(b.first(), c.first(), a.first());
        lemma_component_le_is_an_order(c.first(), a.first(), b.first());
        if b.len() > 0 && a.first() == b.first() && a.drop_first() == b.drop_first() {
            assert(a == seq![a.first()] + a.drop_first());
            assert(b == seq![b.first()] + b.drop_first());
        }
    } else if b.len() == 0 {
        assert(a == b);
    }
}

/// The order of paths is total and transitive, and two paths that stand before
/// each other are the same path.
pub proof fn law_path_order(a: Seq<char>, b: Seq<char>, c: Seq<char>)
    ensures
        path_le(a, a),
        path_le(a, b) || path_le(b, a),
        path_le(a, b) && path_le(b, a) <==> same_path(a, b),
        path_le(a, b) && path_le(b, c) ==> path_le(a, c),
{
    lemma_components_le_is_an_order(components(a), components(b), components(c));
}

/// Each path of `list` stands before those that come later in it.
pub open spec fn is_sorted(list: Seq<Seq<char>>) -> bool {
    forall|i: int, j: int| 0 <= i <= j < list.len() ==> path_le(#[trigger] list[i], #[trigger] list[j])
}

proof fn lemma_insert_path(sorted: Seq<Seq<char>>, p: Seq<char>)
    requires
        is_sorted(sorted),
    ensures
        is_sorted(insert_path(sorted, p)),
        insert_path(sorted, p).to_multiset() == sorted.to_multiset().insert(p),
        sorted.len() > 0 && !path_le(sorted.last(), p) ==> insert_path(sorted, p).last()
            == sorted.last(),
    decreases sorted.len(),
{
    broadcast use vstd::seq_lib::group_to_multiset_ensures;

    law_path_order(p, p, p);
    if sorted.len() == 0 {
        assert(sorted.push(p).to_multiset() =~= sorted.to_multiset().insert(p));
    } else if path_le(sorted.last(), p) {
        assert(sorted.push(p).to_multiset() =~= sorted.to_multiset().insert(p));
        assert forall|i: int, j: int| 0 <= i <= j < sorted.push(p).len() implies path_le(
            #[trigger] sorted.push(p)[i],
            #[trigger] sorted.push(p)[j],
        ) by {
            if j == sorted.len() && i < j {
                law_path_order(sorted[i], sorted.last(), p);
            }
        }
    } else {
        let head = sorted.drop_last();
        let last = sorted.last();
        lemma_insert_path(head, p);
        let inner = insert_path(head, p);
        let all = inner.push(last);
        law_path_order(last, p, p);
        assert(sorted == head.push(last));
        assert(all.to_multiset() =~= inner.to_multiset().insert(last));
        assert(sorted.to_multiset() =~= head.to_multiset().insert(last));
        assert(all.to_multiset() =~= sorted.to_multiset().insert(p));
        assert forall|i: int, j: int| 0 <= i <= j < all.len() implies path_le(
            #[trigger] all[i],
            #[trigger] all[j],
        ) by {
            if j == inner.len() && i < j {
                assert(inner.to_multiset().count(inner[i]) > 0) by {
                    assert(inner.contains(inner[i]));
                }
                if inner[i] != p {
                    assert(head.to_multiset().count(inner[i]) > 0);
                    assert(head.contains(inner[i]));
                    let k = choose|k: int| 0 <= k < head.len() && head[k] == inner[i];
                    assert(sorted[k] == inner[i]);
                    assert(path_le(sorted[k], sorted[sorted.len() - 1]));
                }
            } else if j == inner.len() {
                law_path_order(last, last, last);
            }
        }
    }
}

/// Sorting puts the paths in order and neither adds nor drops one.
pub proof fn law_sorted_paths(list: Seq<Seq<char>>)
    ensures
        is_sorted(sorted_paths(list)),
        sorted_paths(list).to_multiset() == list.to_multiset(),
        sorted_paths(list).len() == list.len(),
    decreases list.len(),
{
    broadcast use vstd::seq_lib::group_to_multiset_ensures;

    if list.len() > 0 {
        law_sorted_paths(list.drop_last());
        lemma_insert_path(sorted_paths(list.drop_last()), list.last());
        assert(list == list.drop_last().push(list.last()));
        assert(list.to_multiset() =~= list.drop_last().to_multiset().insert(list.last()));
        assert(sorted_paths(list).len() == sorted_paths(list).to_multiset().len());
        assert(list.len() == list.to_multiset().len());
    } else {
        assert(sorted_paths(list) =~= list);
    }
}

/// A path that goes down from where it is seen: not empty, not absolute, and
/// not one that begins with `.`.
pub open spec fn goes_down(rel: Seq<char>) -> bool {
    rel.len() > 0 && rel.first() != '/' && split(rel, '/').first() != seq!['.']
}

pub proof fn lemma_split_at(a: Seq<char>, b: Seq<char>, sep: char)
    ensures
        split(a.push(sep) + b, sep) == split(a, sep) + split(b, sep),
    decreases b.len(),
{
    lemma_split_is_not_empty(b, sep);
    if b.len() == 0 {
        assert(a.push(sep) + b == a.push(sep));
        assert(a.push(sep).drop_last() == a);
        assert(split(a, sep).push(Seq::empty()) == split(a, sep) + split(b, sep));
    } else {
        let whole = a.push(sep) + b;
        lemma_split_at(a, b.drop_last(), sep);
        lemma_split_is_not_empty(b.drop_last(), sep);
        assert(whole.drop_last() == a.push(sep) + b.drop_last());
        assert(whole.last() == b.last());
        let head = split(whole.drop_last(), sep);
        assert(head == split(a, sep) + split(b.drop_last(), sep));
        assert(head.last() == split(b.drop_last(), sep).last());
        if b.last() == sep {
            assert(head.push(Seq::empty()) == split(a, sep) + split(b, sep));
        } else {
            assert(head.drop_last() == split(a, sep) + split(b.drop_last(), sep).drop_last());
            assert(head.drop_last().push(head.last().push(b.last())) == split(a, sep) + split(
                b,
                sep,
            ));
        }
    }
}

/// The components of a joined path are those of the base and then those of
/// what is joined to it.
pub proof fn law_components_of_joined(base: Seq<char>, rel: Seq<char>)
    requires
        goes_down(rel),
    ensures
        components(joined(base, rel)) == components(base) + components(rel),
{
    let keep = |s: Seq<char>| is_named(s);
    lemma_split_is_not_empty(rel, '/');
    if base.len() == 0 {
        assert(joined(base, rel) == rel);
        reveal_with_fuel(Seq::filter, 2);
        assert(split(base, '/').drop_last() == Seq::<Seq<char>>::empty());
        assert(split(base, '/').filter(keep) == Seq::<Seq<char>>::empty());
        assert(components(base) == Seq::<Seq<char>>::empty());
        assert(components(joined(base, rel)) == components(base) + components(rel));
    } else {
        let front = if base.last() == '/' {
            base.drop_last()
        } else {
            base
        };
        assert(joined(base, rel) == front.push('/') + rel);
        lemma_split_at(front, rel, '/');
        lemma_split_is_not_empty(front, '/');
        Seq::filter_distributes_over_add(split(front, '/'), split(rel, '/'), keep);
        assert(joined(base, rel).first() == base.first());
        assert(split(base, '/').first() == split(front, '/').first());
        assert(split(base, '/').filter(keep) == split(front, '/').filter(keep)) by {
            if base.last() == '/' {
                reveal(Seq::filter);
                assert(split(base, '/').drop_last() == split(front, '/'));
            }
        }
        assert(split(joined(base, rel), '/').first() == split(base, '/').first());
        assert(anchor(joined(base, rel)) == anchor(base));
        assert(anchor(rel) == Seq::<Seq<char>>::empty());
        assert(components(joined(base, rel)) == components(base) + components(rel));
    }
}

proof fn lemma_components_le_after(front: Seq<Seq<char>>, a: Seq<Seq<char>>, b: Seq<Seq<char>>)
    ensures
        components_le(front + a, front + b) == components_le(a, b),
    decreases front.len(),
{
    if front.len() == 0 {
        assert(front + a == a);
        assert(front + b == b);
    } else {
        lemma_components_le_after(front.drop_first(), a, b);
        assert((front + a).drop_first() == front.drop_first() + a);
        assert((front + b).drop_first() == front.drop_first() + b);
    }
}

/// Paths below one directory stand in the order of what comes after it.
pub proof fn law_order_below_a_directory(dir: Seq<char>, a: Seq<char>, b: Seq<char>)
    requires
        goes_down(a),
        goes_down(b),
    ensures
        path_le(joined(dir, a), joined(dir, b)) == path_le(a, b),
{
    law_components_of_joined(dir, a);
    law_components_of_joined(dir, b);
    lemma_components_le_after(components(dir), components(a), components(b));
}

/// Whether the path starts at the root directory.
pub open spec fn is_absolute(p: Seq<char>) -> bool {
    p.len() > 0 && p.first() == '/'
}

/// Whether the path starts at the root directory.
pub fn starts_at_root(p: &str) -> (r: bool)
    ensures
        r == is_absolute(p@),
{
    let chars = to_chars(p);
    chars.len() > 0 && chars[0] == '/'
}

/// The path `p` from the root directory on, where `current` is the current
/// directory.
pub open spec fn absolute_path(current: Seq<char>, p: Seq<char>) -> Seq<char> {
    if p == "."@ {
        current
    } else {
        joined(current, p)
    }
}

/// The path `p` from the root directory on, where `current` is the current
/// directory.
pub fn make_absolute(current: &str, p: &str) -> (r: String)
    ensures
        r@ == absolute_path(current@, p@),
{
    let chars = to_chars(p);
    proof {
        reveal_strlit(".");
    }
    if chars.len() == 1 && chars[0] == '.' {
        assert(p@ == "."@);
        current.to_owned()
    } else {
        join(current, p)
    }
}

/// Seen from an absolute directory every path is absolute, and one that is absolute
/// already stays as it is.
pub proof fn law_absolute_path(current: Seq<char>, p: Seq<char>)
    requires
        is_absolute(current),
    ensures
        is_absolute(absolute_path(current, p)),
        is_absolute(p) ==> absolute_path(current, p) == p,
{
    reveal_strlit(".");
}

/// Whether the path is `base` or lies below it, by components.
pub open spec fn is_within(p: Seq<char>, base: Seq<char>) -> bool {
    &&& components(base).len() <= components(p).len()
    &&& components(p).take(components(base).len() as int) == components(base)
}

/// The pieces from the first named one on.
pub open spec fn trim_front(list: Seq<Seq<char>>) -> Seq<Seq<char>>
    decreases list.len(),
{
    if list.len() > 0 && !is_named(list.first()) {
        trim_front(list.drop_first())
    } else {
        list
    }
}

/// The pieces up to the last named one.
pub open spec fn trim_back(list: Seq<Seq<char>>) -> Seq<Seq<char>>
    decreases list.len(),
{
    if list.len() > 0 && !is_named(list.last()) {
        trim_back(list.drop_last())
    } else {
        list
    }
}

/// The pieces behind the first `k` named ones.
pub open spec fn behind_named(list: Seq<Seq<char>>, k: nat) -> Seq<Seq<char>>
    decreases list.len(),
{
    if k == 0 || list.len() == 0 {
        list
    } else if is_named(list.first()) {
        behind_named(list.drop_first(), (k - 1) as nat)
    } else {
        behind_named(list.drop_first(), k)
    }
}

/// The text of the path behind its first `n` components. Separators and `.` that do
/// not count go at its two ends and stay inside.
pub open spec fn text_behind(p: Seq<char>, n: nat) -> Seq<char> {
    let list = split(p, '/');
    if n >= anchor(p).len() {
        unsplit(trim_back(trim_front(behind_named(list, (n - anchor(p).len()) as nat))), '/')
    } else if is_absolute(p) {
        seq!['/'] + unsplit(trim_back(list.skip(1)), '/')
    } else {
        unsplit(list.take(1) + trim_back(list.skip(1)), '/')
    }
}

/// The path as seen from `base`; none where it does not lie below it.
pub open spec fn seen_from(p: Seq<char>, base: Seq<char>) -> Option<Seq<char>> {
    if is_within(p, base) {
        Some(text_behind(p, components(base).len()))
    } else {
        None
    }
}

/// The pieces `list[from..to]`, with one separator between each two of them.
fn unsplit_range(list: &Vec<Vec<char>>, from: usize, to: usize) -> (r: String)
    requires
        from <= to <= list@.len(),
    ensures
        r@ == unsplit(pieces(list@).subrange(from as int, to as int), '/'),
{
    let ghost all = pieces(list@).subrange(from as int, to as int);
    let mut out = String::new();
    let mut i: usize = from;
    assert(all.take(0) == Seq::<Seq<char>>::empty());
    while i < to
        invariant
            from <= i <= to <= list@.len(),
            all == pieces(list@).subrange(from as int, to as int),
            out@ == unsplit(all.take(i - from), '/'),
        decreases to - i,
    {
        let piece = from_chars(&list[i], 0, list[i].len());
        assert(piece@ == list@[i as int]@);
        assert(all[i - from] == piece@);
        assert(all.take(i + 1 - from).drop_last() == all.take(i - from));
        assert(all.take(i + 1 - from).last() == piece@);
        if i > from {
            out.push('/');
        } else {
            assert(out@ + piece@ == piece@);
        }
        out.append(piece.as_str());
        i += 1;
    }
    assert(all.take(to - from) == all);
    out
}

fn named_piece(piece: &Vec<char>) -> (r: bool)
    ensures
        r == is_named(piece@),
{
    let dot = piece.len() == 1 && piece[0] == '.';
    if dot {
        assert(piece@ == seq!['.']);
    }
    piece.len() > 0 && !dot
}

/// Where the last named piece from `from` on ends.
fn end_of_named(list: &Vec<Vec<char>>, from: usize) -> (to: usize)
    requires
        from <= list@.len(),
    ensures
        from <= to <= list@.len(),
        trim_back(pieces(list@).skip(from as int)) == pieces(list@).subrange(
            from as int,
            to as int,
        ),
{
    let ghost all = pieces(list@);
    let mut to: usize = list.len();
    assert(all.subrange(from as int, to as int) == all.skip(from as int));
    while to > from && !named_piece(&list[to - 1])
        invariant
            from <= to <= list@.len(),
            all == pieces(list@),
            trim_back(all.skip(from as int)) == trim_back(all.subrange(from as int, to as int)),
        decreases to,
    {
        assert(all[to - 1] == list@[to - 1]@);
        assert(all.subrange(from as int, to as int).drop_last() == all.subrange(
            from as int,
            to - 1,
        ));
        to -= 1;
    }
    if to > from {
        assert(all[to - 1] == list@[to - 1]@);
        assert(all.subrange(from as int, to as int).last() == all[to - 1]);
    }
    to
}

/// Where the first named piece behind the first `k` named ones begins.
fn start_behind_named(list: &Vec<Vec<char>>, k: usize) -> (from: usize)
    ensures
        from <= list@.len(),
        trim_front(behind_named(pieces(list@), k as nat)) == pieces(list@).skip(from as int),
{
    let ghost all = pieces(list@);
    let mut left: usize = k;
    let mut i: usize = 0;
    assert(all.skip(0) == all);
    while left > 0 && i < list.len()
        invariant
            i <= list@.len(),
            all == pieces(list@),
            behind_named(all, k as nat) == behind_named(all.skip(i as int), left as nat),
        decreases list@.len() - i,
    {
        assert(all[i as int] == list@[i as int]@);
        assert(all.skip(i as int).drop_first() == all.skip(i + 1));
        if named_piece(&list[i]) {
            left -= 1;
        }
        i += 1;
    }
    while i < list.len() && !named_piece(&list[i])
        invariant
            i <= list@.len(),
            all == pieces(list@),
            trim_front(behind_named(all, k as nat)) == trim_front(all.skip(i as int)),
        decreases list@.len() - i,
    {
        assert(all[i as int] == list@[i as int]@);
        assert(all.skip(i as int).drop_first() == all.skip(i + 1));
        i += 1;
    }
    if i < list.len() {
        assert(all.skip(i as int).first() == list@[i as int]@);
    }
    i
}

fn text_behind_components(p: &str, n: usize) -> (r: String)
    ensures
        r@ == text_behind(p@, n as nat),
{
    let list = split_chars(p, '/');
    let ghost all = pieces(list@);
    proof {
        lemma_split_is_not_empty(p@, '/');
    }
    assert(all[0] == list@[0]@);
    let absolute = starts_at_root(p);
    let dot = list[0].len() == 1 && list[0][0] == '.';
    if dot {
        assert(list@[0]@ == seq!['.']);
    }
    let anchored = absolute || dot;
    assert(anchor(p@).len() == if anchored {
        1int
    } else {
        0int
    });
    if n > 0 || !anchored {
        let k: usize = if anchored {
            n - 1
        } else {
            n
        };
        let from: usize = start_behind_named(&list, k);
        let to: usize = end_of_named(&list, from);
        unsplit_range(&list, from, to)
    } else {
        let to: usize = end_of_named(&list, 1);
        if absolute {
            let tail = unsplit_range(&list, 1, to);
            let mut out = String::new();
            out.push('/');
            out.append(tail.as_str());
            assert(out@ == text_behind(p@, n as nat));
            out
        } else {
            assert(all.take(1) + all.subrange(1, to as int) == all.subrange(0, to as int));
            unsplit_range(&list, 0, to)
        }
    }
}

/// The path as seen from `base`; `None` where it does not lie below it.
pub fn strip_prefix(p: &str, base: &str) -> (r: Option<String>)
    ensures
        match r {
            Some(rel) => seen_from(p@, base@) == Some(rel@),
            None => seen_from(p@, base@) is None,
        },
{
    let cp = components_of(p);
    let cb = components_of(base);
    let ghost sp = components(p@);
    let ghost sb = components(base@);
    assert(sp.len() == cp@.len());
    assert(sb.len() == cb@.len());
    if cb.len() > cp.len() {
        return None;
    }
    let n: usize = cb.len();
    let mut i: usize = 0;
    while i < n
        invariant
            i <= n <= cp@.len(),
            n == cb@.len(),
            pieces(cp@) == sp,
            pieces(cb@) == sb,
            sp == components(p@),
            sb == components(base@),
            forall|j: int| 0 <= j < i ==> sp[j] == sb[j],
        decreases n - i,
    {
        assert(sp[i as int] == cp@[i as int]@);
        assert(sb[i as int] == cb@[i as int]@);
        if !same_chars(&cp[i], &cb[i]) {
            assert(sp.take(n as int)[i as int] != sb[i as int]);
            return None;
        }
        i += 1;
    }
    assert(sp.take(n as int) == sb);
    Some(text_behind_components(p, n))
}

/// Whether the last component of the path is the name of a file.
pub open spec fn has_file_name(p: Seq<char>) -> bool {
    components(p).len() > 0 && component_rank(components(p).last()) == 3
}

/// A path whose last character is neither `/` nor `.` ends in a file name.
pub proof fn lemma_has_file_name(p: Seq<char>)
    requires
        p.len() > 0,
        p.last() != '/',
        p.last() != '.',
    ensures
        has_file_name(p),
{
    let keep = |s: Seq<char>| is_named(s);
    let list = split(p, '/');
    lemma_split_is_not_empty(p, '/');
    lemma_split_is_not_empty(p.drop_last(), '/');
    assert(list.last().last() == p.last());
    assert(list.last().len() > 0);
    assert(is_named(list.last()));
    reveal(Seq::filter);
    assert(list.filter(keep).last() == list.last());
    assert(components(p).last() == list.last());
}

/// A path made of names only: no separator too many, and no `.`.
pub open spec fn is_plain(rel: Seq<char>) -> bool {
    &&& goes_down(rel)
    &&& forall|i: int| 0 <= i < split(rel, '/').len() ==> is_named(#[trigger] split(rel, '/')[i])
}

proof fn lemma_filter_keeps_all(list: Seq<Seq<char>>)
    requires
        forall|i: int| 0 <= i < list.len() ==> is_named(#[trigger] list[i]),
    ensures
        list.filter(|s: Seq<char>| is_named(s)) == list,
    decreases list.len(),
{
    reveal(Seq::filter);
    if list.len() > 0 {
        assert forall|i: int| 0 <= i < list.drop_last().len() implies is_named(
            #[trigger] list.drop_last()[i],
        ) by {
            assert(is_named(list[i]));
        }
        lemma_filter_keeps_all(list.drop_last());
        assert(is_named(list[list.len() - 1]));
        assert(list.drop_last().push(list.last()) == list);
    }
}

/// A plain path is what its components make.
pub proof fn law_plain_path(rel: Seq<char>)
    requires
        is_plain(rel),
    ensures
        components(rel) == split(rel, '/'),
        unsplit(components(rel), '/') == rel,
{
    let list = split(rel, '/');
    lemma_filter_keeps_all(list);
    lemma_split_is_not_empty(rel, '/');
    law_split(rel, '/');
    assert(anchor(rel) + list == list);
}

proof fn lemma_filter_first(list: Seq<Seq<char>>)
    requires
        list.len() > 0,
    ensures
        ({
            let keep = |s: Seq<char>| is_named(s);
            list.filter(keep) == if is_named(list.first()) {
                seq![list.first()] + list.drop_first().filter(keep)
            } else {
                list.drop_first().filter(keep)
            }
        }),
{
    let keep = |s: Seq<char>| is_named(s);
    let head = seq![list.first()];
    assert(head + list.drop_first() == list);
    Seq::filter_distributes_over_add(head, list.drop_first(), keep);
    reveal_with_fuel(Seq::filter, 2);
    assert(head.drop_last() == Seq::<Seq<char>>::empty());
    assert(head.filter(keep) == if is_named(list.first()) {
        head
    } else {
        Seq::<Seq<char>>::empty()
    });
    assert(Seq::<Seq<char>>::empty() + list.drop_first().filter(keep) == list.drop_first().filter(
        keep,
    ));
}

proof fn lemma_behind_all_named(a: Seq<Seq<char>>, b: Seq<Seq<char>>)
    ensures
        trim_front(behind_named(a + b, a.filter(|s: Seq<char>| is_named(s)).len())) == trim_front(b),
    decreases a.len(),
{
    let keep = |s: Seq<char>| is_named(s);
    if a.len() == 0 {
        reveal(Seq::filter);
        assert(a + b == b);
    } else {
        lemma_filter_first(a);
        lemma_behind_all_named(a.drop_first(), b);
        assert((a + b).first() == a.first());
        assert((a + b).drop_first() == a.drop_first() + b);
        if !is_named(a.first()) && a.filter(keep).len() == 0 {
            assert(behind_named(a.drop_first() + b, 0) == a.drop_first() + b);
            assert(trim_front(a + b) == trim_front(a.drop_first() + b));
        }
    }
}

proof fn lemma_trim_keeps_named(list: Seq<Seq<char>>)
    requires
        list.len() > 0,
        is_named(list.first()),
        is_named(list.last()),
    ensures
        trim_back(trim_front(list)) == list,
{
}

/// What is joined to a directory is seen from there again.
pub proof fn law_joined_is_seen(base: Seq<char>, rel: Seq<char>)
    requires
        is_plain(rel),
    ensures
        seen_from(joined(base, rel), base) == Some(rel),
{
    let p = joined(base, rel);
    let list = split(rel, '/');
    let n = components(base).len();
    law_components_of_joined(base, rel);
    lemma_front_and_back(components(base), components(rel));
    law_split(rel, '/');
    lemma_split_is_not_empty(rel, '/');
    assert(is_named(list[0]) && is_named(list[list.len() - 1]));
    lemma_trim_keeps_named(list);
    let front = lemma_pieces_of_joined(base, rel);
    lemma_behind_all_named(front, list);
}

/// The pieces of a joined path are those of what is joined, behind as many named ones
/// as the base has.
proof fn lemma_pieces_of_joined(base: Seq<char>, rel: Seq<char>) -> (front: Seq<Seq<char>>)
    requires
        goes_down(rel),
    ensures
        split(joined(base, rel), '/') == front + split(rel, '/'),
        anchor(joined(base, rel)) == anchor(base),
        components(base).len() == anchor(base).len() + front.filter(
            |s: Seq<char>| is_named(s),
        ).len(),
{
    let keep = |s: Seq<char>| is_named(s);
    if base.len() == 0 {
        let none = Seq::<Seq<char>>::empty();
        reveal_with_fuel(Seq::filter, 2);
        assert(joined(base, rel) == rel);
        assert(split(base, '/').drop_last() == none);
        assert(none + split(rel, '/') == split(rel, '/'));
        assert(split(base, '/').first().len() != seq!['.'].len());
        assert(anchor(base) == none && anchor(rel) == none);
        none
    } else {
        let front = if base.last() == '/' {
            base.drop_last()
        } else {
            base
        };
        assert(joined(base, rel) == front.push('/') + rel);
        lemma_split_at(front, rel, '/');
        lemma_split_is_not_empty(front, '/');
        lemma_split_is_not_empty(base, '/');
        assert(joined(base, rel).first() == base.first());
        assert(split(base, '/').first() == split(front, '/').first());
        assert(split(base, '/').filter(keep) == split(front, '/').filter(keep)) by {
            if base.last() == '/' {
                reveal(Seq::filter);
                assert(split(base, '/').drop_last() == split(front, '/'));
            }
        }
        assert(split(joined(base, rel), '/').first() == split(base, '/').first());
        split(front, '/')
    }
}

proof fn lemma_front_and_back(a: Seq<Seq<char>>, b: Seq<Seq<char>>)
    ensures
        (a + b).take(a.len() as int) == a,
        (a + b).skip(a.len() as int) == b,
{
    assert((a + b).take(a.len() as int) == a);
    assert((a + b).skip(a.len() as int) == b);
}

/// Different plain paths below one directory are different paths.
pub proof fn law_plain_paths_differ(base: Seq<char>, a: Seq<char>, b: Seq<char>)
    requires
        is_plain(a),
        is_plain(b),
        same_path(joined(base, a), joined(base, b)),
    ensures
        a == b,
{
    law_components_of_joined(base, a);
    law_components_of_joined(base, b);
    lemma_front_and_back(components(base), components(a));
    lemma_front_and_back(components(base), components(b));
    law_plain_path(a);
    law_plain_path(b);
}

/// Below what is below a directory is below the directory.
pub proof fn law_within(a: Seq<char>, b: Seq<char>, c: Seq<char>)
    requires
        is_within(a, b),
        is_within(b, c),
    ensures
        is_within(a, c),
{
    let n = components(c).len() as int;
    assert(components(a).take(n) == components(a).take(components(b).len() as int).take(n));
}

/// What is joined to a directory lies below it.
pub proof fn law_joined_is_within(base: Seq<char>, rel: Seq<char>)
    requires
        goes_down(rel),
    ensures
        is_within(joined(base, rel), base),
{
    law_components_of_joined(base, rel);
    lemma_front_and_back(components(base), components(rel));
}

pub proof fn lemma_split_without_separator(s: Seq<char>, sep: char)
    requires
        !s.contains(sep),
    ensures
        split(s, sep) == seq![s],
    decreases s.len(),
{
    if s.len() == 0 {
        assert(s == Seq::<char>::empty());
    } else {
        assert(!s.drop_last().contains(sep)) by {
            if s.drop_last().contains(sep) {
                let i = choose|i: int| 0 <= i < s.drop_last().len() && s.drop_last()[i] == sep;
                assert(s[i] == sep);
            }
        }
        lemma_split_without_separator(s.drop_last(), sep);
        assert(s.contains(s.last()));
        assert(s.drop_last().push(s.last()) == s);
    }
}

/// A single name is a path of one component, and goes down.
pub proof fn lemma_name(name: Seq<char>)
    requires
        is_named(name),
        !name.contains('/'),
    ensures
        is_plain(name),
        components(name) == seq![name],
{
    lemma_split_without_separator(name, '/');
    assert(name.contains(name.first()));
    law_plain_path(name);
}

proof fn lemma_split_begins(s: Seq<char>, sep: char)
    requires
        s.len() > 0,
        s.first() != sep,
    ensures
        split(s, sep).len() > 0,
        split(s, sep).first().len() > 0,
        split(s, sep).first().first() == s.first(),
    decreases s.len(),
{
    lemma_split_is_not_empty(s.drop_last(), sep);
    if s.len() > 1 {
        lemma_split_begins(s.drop_last(), sep);
    } else {
        assert(s.drop_last() == Seq::<char>::empty());
        assert(split(s.drop_last(), sep) == seq![Seq::<char>::empty()]);
        assert(split(s, sep).first() == seq![s.last()]);
    }
}

/// A path that begins with neither `/` nor `.` goes down.
pub proof fn lemma_goes_down(rel: Seq<char>)
    requires
        rel.len() > 0,
        rel.first() != '/',
        rel.first() != '.',
    ensures
        goes_down(rel),
{
    lemma_split_begins(rel, '/');
}

proof fn lemma_split_of_unsplit(list: Seq<Seq<char>>, sep: char)
    requires
        list.len() > 0,
        forall|i: int| 0 <= i < list.len() ==> !(#[trigger] list[i]).contains(sep),
    ensures
        split(unsplit(list, sep), sep) == list,
    decreases list.len(),
{
    assert(!list[list.len() - 1].contains(sep));
    lemma_split_without_separator(list.last(), sep);
    if list.len() == 1 {
        assert(seq![list.first()] == list);
    } else {
        let head = list.drop_last();
        assert forall|i: int| 0 <= i < head.len() implies !(#[trigger] head[i]).contains(sep) by {
            assert(!list[i].contains(sep));
        }
        lemma_split_of_unsplit(head, sep);
        lemma_split_at(unsplit(head, sep), list.last(), sep);
        assert(head + seq![list.last()] == list);
    }
}

/// Whether each of the pieces is one of the list.
spec fn is_part(part: Seq<Seq<char>>, list: Seq<Seq<char>>) -> bool {
    forall|i: int| 0 <= i < part.len() ==> list.contains(#[trigger] part[i])
}

proof fn lemma_trim_front(list: Seq<Seq<char>>)
    ensures
        trim_front(list).filter(|s: Seq<char>| is_named(s)) == list.filter(
            |s: Seq<char>| is_named(s),
        ),
        is_part(trim_front(list), list),
        trim_front(list).len() > 0 ==> is_named(trim_front(list).first()),
    decreases list.len(),
{
    if list.len() > 0 && !is_named(list.first()) {
        let rest = list.drop_first();
        lemma_trim_front(rest);
        lemma_filter_first(list);
        lemma_is_part_of_rest(trim_front(rest), list);
    } else {
        lemma_is_part_of_itself(list);
    }
}

proof fn lemma_trim_back(list: Seq<Seq<char>>)
    ensures
        trim_back(list).filter(|s: Seq<char>| is_named(s)) == list.filter(
            |s: Seq<char>| is_named(s),
        ),
        is_part(trim_back(list), list),
        list.len() > 0 && is_named(list.first()) ==> trim_back(list).len() > 0 && trim_back(
            list,
        ).first() == list.first(),
    decreases list.len(),
{
    if list.len() > 0 && !is_named(list.last()) {
        let rest = list.drop_last();
        lemma_trim_back(rest);
        reveal(Seq::filter);
        let part = trim_back(rest);
        assert forall|i: int| 0 <= i < part.len() implies list.contains(#[trigger] part[i]) by {
            assert(rest.contains(part[i]));
            let k = choose|k: int| 0 <= k < rest.len() && rest[k] == part[i];
            assert(list[k] == part[i]);
        }
    } else {
        lemma_is_part_of_itself(list);
    }
}

proof fn lemma_is_part_of_itself(list: Seq<Seq<char>>)
    ensures
        is_part(list, list),
{
    assert forall|i: int| 0 <= i < list.len() implies list.contains(#[trigger] list[i]) by {}
}

proof fn lemma_is_part_of_rest(part: Seq<Seq<char>>, list: Seq<Seq<char>>)
    requires
        list.len() > 0,
        is_part(part, list.drop_first()),
    ensures
        is_part(part, list),
{
    let rest = list.drop_first();
    assert forall|i: int| 0 <= i < part.len() implies list.contains(#[trigger] part[i]) by {
        assert(rest.contains(part[i]));
        let k = choose|k: int| 0 <= k < rest.len() && rest[k] == part[i];
        assert(list[k + 1] == part[i]);
    }
}

proof fn lemma_behind_named(list: Seq<Seq<char>>, k: nat)
    requires
        k <= list.filter(|s: Seq<char>| is_named(s)).len(),
    ensures
        behind_named(list, k).filter(|s: Seq<char>| is_named(s)) == list.filter(
            |s: Seq<char>| is_named(s),
        ).skip(k as int),
        is_part(behind_named(list, k), list),
    decreases list.len(),
{
    let keep = |s: Seq<char>| is_named(s);
    if k == 0 || list.len() == 0 {
        reveal(Seq::filter);
        assert(list.filter(keep).skip(0) == list.filter(keep));
        lemma_is_part_of_itself(list);
    } else {
        lemma_filter_first(list);
        let rest = list.drop_first();
        if is_named(list.first()) {
            lemma_behind_named(rest, (k - 1) as nat);
            assert((seq![list.first()] + rest.filter(keep)).skip(k as int) == rest.filter(
                keep,
            ).skip(k - 1));
        } else {
            lemma_behind_named(rest, k);
        }
        lemma_is_part_of_rest(behind_named(list, k), list);
    }
}

/// What is seen of a path from a directory above it has the components that are left.
pub proof fn law_seen_path(p: Seq<char>, base: Seq<char>)
    requires
        is_within(p, base),
        components(base).len() > 0,
    ensures
        seen_from(p, base) matches Some(rel) && components(rel) == components(p).skip(
            components(base).len() as int,
        ),
{
    let keep = |s: Seq<char>| is_named(s);
    let n = components(base).len();
    let list = split(p, '/');
    let k = (n - anchor(p).len()) as nat;
    let behind = behind_named(list, k);
    let front = trim_front(behind);
    let part = trim_back(front);
    let rel = unsplit(part, '/');
    lemma_behind_named(list, k);
    lemma_trim_front(behind);
    lemma_trim_back(front);
    law_split(p, '/');
    assert(components(p).skip(n as int) == list.filter(keep).skip(k as int));
    assert forall|i: int| 0 <= i < part.len() implies !(#[trigger] part[i]).contains('/') by {
        assert(front.contains(part[i]));
        let a = choose|a: int| 0 <= a < front.len() && front[a] == part[i];
        assert(behind.contains(front[a]));
        let b = choose|b: int| 0 <= b < behind.len() && behind[b] == front[a];
        assert(list.contains(behind[b]));
        let c = choose|c: int| 0 <= c < list.len() && list[c] == behind[b];
        assert(!list[c].contains('/'));
    }
    if part.len() == 0 {
        reveal_with_fuel(Seq::filter, 2);
        let none = Seq::<Seq<char>>::empty();
        assert(part == none);
        assert(rel == Seq::<char>::empty());
        assert(split(rel, '/').drop_last() == none);
        assert(split(rel, '/').first().len() != seq!['.'].len());
        assert(components(rel) == none);
        assert(part.filter(keep) == none);
    } else {
        lemma_split_of_unsplit(part, '/');
        let first = part.first();
        assert(is_named(first));
        assert(!part[0].contains('/'));
        assert(first.contains(first[0]));
        assert(anchor(rel) == Seq::<Seq<char>>::empty()) by {
            lemma_split_of_first(rel);
        }
        assert(components(rel) == part.filter(keep));
    }
}

/// The first piece of an absolute path is empty.
proof fn lemma_split_of_first(s: Seq<char>)
    ensures
        is_absolute(s) ==> split(s, '/').first().len() == 0,
{
    if is_absolute(s) {
        lemma_split_at(Seq::empty(), s.drop_first(), '/');
        assert(Seq::<char>::empty().push('/') + s.drop_first() == s);
    }
}

/// A joined path begins with the base and ends with what is joined, with one
/// separator between the two where neither brings it; an absolute path that is joined
/// stands for itself.
pub proof fn law_joined(base: Seq<char>, rel: Seq<char>)
    ensures
        rel.len() > 0 && rel[0] == '/' ==> joined(base, rel) == rel,
        !(rel.len() > 0 && rel[0] == '/') ==> {
            &&& joined(base, rel).take(base.len() as int) == base
            &&& joined(base, rel).skip(joined(base, rel).len() - rel.len()) == rel
            &&& base.len() == 0 || base.last() == '/' ==> joined(base, rel).len() == base.len()
                + rel.len()
            &&& base.len() > 0 && base.last() != '/' ==> joined(base, rel).len() == base.len() + 1
                + rel.len() && joined(base, rel)[base.len() as int] == '/'
        },
{
    assert(joined(base, rel).skip(joined(base, rel).len() - rel.len()) == rel);
    if !(rel.len() > 0 && rel[0] == '/') {
        assert(joined(base, rel).take(base.len() as int) == base);
    }
}

/// What stands before the first separator is the first piece, and the other pieces are
/// those of what stands behind it; a text without a separator is one piece.
pub proof fn law_split_pieces(a: Seq<char>, b: Seq<char>, sep: char)
    requires
        !a.contains(sep),
    ensures
        split(a, sep) == seq![a],
        split(a + seq![sep] + b, sep) == seq![a] + split(b, sep),
{
    lemma_split_without_separator(a, sep);
    lemma_split_at(a, b, sep);
    assert(a.push(sep) + b == a + seq![sep] + b);
}

/// Pieces are put together one behind the other, with one separator between each two.
pub proof fn law_unsplit(list: Seq<Seq<char>>, piece: Seq<char>, sep: char)
    ensures
        unsplit(Seq::empty(), sep) == Seq::<char>::empty(),
        unsplit(seq![piece], sep) == piece,
        list.len() > 0 ==> unsplit(list.push(piece), sep) == unsplit(list, sep) + seq![sep] + piece,
{
    if list.len() > 0 {
        assert(list.push(piece).drop_last() == list);
        assert(unsplit(list, sep).push(sep) + piece == unsplit(list, sep) + seq![sep] + piece);
    }
}

/// A text without `/` is one component, or none where it is empty. A path that goes on
/// behind a `/` has one component more, except for a piece that is empty or `.`; what
/// starts with `/` starts with the root directory.
pub proof fn law_components(p: Seq<char>, piece: Seq<char>)
    requires
        !piece.contains('/'),
    ensures
        piece.len() == 0 ==> components(piece) == Seq::<Seq<char>>::empty(),
        piece.len() > 0 ==> components(piece) == seq![piece],
        components(p + seq!['/'] + piece) == (if p.len() == 0 {
            seq![seq!['/']]
        } else {
            components(p)
        }) + (if piece.len() == 0 || piece == seq!['.'] {
            Seq::<Seq<char>>::empty()
        } else {
            seq![piece]
        }),
{
    lemma_components_of_piece(piece);
    lemma_components_behind(p, piece);
}

proof fn lemma_filter_of_piece(piece: Seq<char>)
    ensures
        seq![piece].filter(|s: Seq<char>| is_named(s)) == if is_named(piece) {
            seq![piece]
        } else {
            Seq::<Seq<char>>::empty()
        },
{
    reveal_with_fuel(Seq::filter, 2);
    assert(seq![piece].drop_last() == Seq::<Seq<char>>::empty());
}

proof fn lemma_components_of_piece(piece: Seq<char>)
    requires
        !piece.contains('/'),
    ensures
        components(piece) == if piece.len() == 0 {
            Seq::<Seq<char>>::empty()
        } else {
            seq![piece]
        },
{
    lemma_split_without_separator(piece, '/');
    lemma_filter_of_piece(piece);
    if piece.len() > 0 {
        assert(piece.contains(piece.first()));
        assert(components(piece) == seq![piece]);
    } else {
        assert(piece.len() != seq!['.'].len());
        assert(components(piece) == Seq::<Seq<char>>::empty());
    }
}

proof fn lemma_components_behind(p: Seq<char>, piece: Seq<char>)
    requires
        !piece.contains('/'),
    ensures
        components(p + seq!['/'] + piece) == (if p.len() == 0 {
            seq![seq!['/']]
        } else {
            components(p)
        }) + (if piece.len() == 0 || piece == seq!['.'] {
            Seq::<Seq<char>>::empty()
        } else {
            seq![piece]
        }),
{
    let keep = |s: Seq<char>| is_named(s);
    let none = Seq::<Seq<char>>::empty();
    let whole = p + seq!['/'] + piece;
    let list = split(p, '/');
    let tail = if is_named(piece) {
        seq![piece]
    } else {
        none
    };
    lemma_split_without_separator(piece, '/');
    lemma_filter_of_piece(piece);
    lemma_split_at(p, piece, '/');
    lemma_split_is_not_empty(p, '/');
    assert(p.push('/') + piece == whole);
    Seq::filter_distributes_over_add(list, seq![piece], keep);
    let named = list.filter(keep);
    assert(split(whole, '/').filter(keep) == named + tail);
    if p.len() == 0 {
        lemma_filter_of_piece(Seq::empty());
        assert(list == seq![Seq::<char>::empty()]);
        assert(named == none);
        assert(whole[0] == '/');
        assert(anchor(whole) + (named + tail) == seq![seq!['/']] + tail);
    } else {
        assert(whole[0] == p[0]);
        assert(split(whole, '/')[0] == list[0]);
        assert(anchor(whole) == anchor(p));
        assert(anchor(p) + (named + tail) == anchor(p) + named + tail);
    }
}

/// Two texts name the same path exactly where they have the same components.
pub proof fn law_same_path(a: Seq<char>, b: Seq<char>)
    ensures
        same_path(a, b) <==> components(a) == components(b),
{
}

proof fn lemma_lex_after(c: Seq<char>, a: Seq<char>, b: Seq<char>)
    ensures
        lex_le(c + a, c + b) == lex_le(a, b),
    decreases c.len(),
{
    if c.len() == 0 {
        assert(c + a == a);
        assert(c + b == b);
    } else {
        assert((c + a).drop_first() == c.drop_first() + a);
        assert((c + b).drop_first() == c.drop_first() + b);
        lemma_lex_after(c.drop_first(), a, b);
    }
}

proof fn lemma_order_at(
    p: Seq<char>,
    q: Seq<char>,
    f: Seq<Seq<char>>,
    x: Seq<char>,
    u: Seq<Seq<char>>,
    y: Seq<char>,
    v: Seq<Seq<char>>,
)
    requires
        components(p) == f + seq![x] + u,
        components(q) == f + seq![y] + v,
        x != y,
    ensures
        path_le(p, q) == component_le(x, y),
        path_le(q, p) == component_le(y, x),
{
    let a = seq![x] + u;
    let b = seq![y] + v;
    assert(components(p) == f + a);
    assert(components(q) == f + b);
    lemma_components_le_after(f, a, b);
    lemma_components_le_after(f, b, a);
    assert(a.first() == x && b.first() == y);
}

/// Where two paths first differ in a component, and both components are names, the path
/// comes first whose name has the smaller character where the names first differ.
pub proof fn law_order_of_names(
    p: Seq<char>,
    q: Seq<char>,
    f: Seq<Seq<char>>,
    u: Seq<Seq<char>>,
    v: Seq<Seq<char>>,
    c: Seq<char>,
    s: char,
    xs: Seq<char>,
    t: char,
    ys: Seq<char>,
)
    requires
        components(p) == f + seq![c + seq![s] + xs] + u,
        components(q) == f + seq![c + seq![t] + ys] + v,
        s != t,
        c + seq![s] + xs != seq!['/'],
        c + seq![t] + ys != seq!['/'],
        c + seq![s] + xs != seq!['.'],
        c + seq![t] + ys != seq!['.'],
        c + seq![s] + xs != seq!['.', '.'],
        c + seq![t] + ys != seq!['.', '.'],
    ensures
        path_le(p, q) <==> (s as int) < (t as int),
        path_le(q, p) <==> (t as int) < (s as int),
{
    let x = c + seq![s] + xs;
    let y = c + seq![t] + ys;
    assert(x[c.len() as int] == s && y[c.len() as int] == t);
    lemma_order_at(p, q, f, x, u, y, v);
    let a = seq![s] + xs;
    let b = seq![t] + ys;
    assert(x == c + a);
    assert(y == c + b);
    lemma_lex_after(c, a, b);
    lemma_lex_after(c, b, a);
    assert(a.first() == s && b.first() == t);
}

/// Where two paths first differ in a component, and one name begins with the other, the
/// shorter name comes first.
pub proof fn law_order_of_longer_names(
    p: Seq<char>,
    q: Seq<char>,
    f: Seq<Seq<char>>,
    u: Seq<Seq<char>>,
    v: Seq<Seq<char>>,
    x: Seq<char>,
    more: Seq<char>,
)
    requires
        components(p) == f + seq![x] + u,
        components(q) == f + seq![x + more] + v,
        more.len() > 0,
        x != seq!['/'],
        x + more != seq!['/'],
        x != seq!['.'],
        x + more != seq!['.'],
        x != seq!['.', '.'],
        x + more != seq!['.', '.'],
    ensures
        path_le(p, q),
        !path_le(q, p),
{
    let none = Seq::<char>::empty();
    assert((x + more).len() > x.len());
    lemma_order_at(p, q, f, x, u, x + more, v);
    assert(x == x + none);
    lemma_lex_after(x, none, more);
    lemma_lex_after(x, more, none);
}

/// A directory comes before what is below it. Where two paths first differ in a
/// component, the root directory comes before everything, `.` before all but that, and
/// `..` before every name.
pub proof fn law_order_of_special_components(
    p: Seq<char>,
    q: Seq<char>,
    f: Seq<Seq<char>>,
    x: Seq<char>,
    u: Seq<Seq<char>>,
    y: Seq<char>,
    v: Seq<Seq<char>>,
)
    requires
        components(p) == f + seq![x] + u,
    ensures
        components(q) == f ==> path_le(q, p) && !path_le(p, q),
        components(q) == f + seq![y] + v && x != y && x == seq!['/'] ==> path_le(p, q) && !path_le(
            q,
            p,
        ),
        components(q) == f + seq![y] + v && x == seq!['.'] && y != seq!['/'] && x != y ==> path_le(
            p,
            q,
        ) && !path_le(q, p),
        components(q) == f + seq![y] + v && x == seq!['.', '.'] && y != seq!['/'] && y != seq!['.']
            && x != y ==> path_le(p, q) && !path_le(q, p),
{
    let none = Seq::<Seq<char>>::empty();
    assert(seq!['.', '.'].len() != seq!['.'].len());
    assert(seq!['/'][0] != seq!['.'][0]);
    if components(q) == f {
        let a = seq![x] + u;
        assert(components(p) == f + a);
        assert(components(q) == f + none);
        lemma_components_le_after(f, a, none);
        lemma_components_le_after(f, none, a);
    }
    if components(q) == f + seq![y] + v && x != y {
        lemma_order_at(p, q, f, x, u, y, v);
    }
}

/// Sorting puts each path before those that come after it, neither adds nor drops one,
/// and leaves paths that are the same in the order that they had.
pub proof fn law_sorting(list: Seq<Seq<char>>, p: Seq<char>)
    ensures
        forall|i: int, j: int|
            0 <= i <= j < sorted_paths(list).len() ==> path_le(
                #[trigger] sorted_paths(list)[i],
                #[trigger] sorted_paths(list)[j],
            ),
        sorted_paths(list).len() == list.len(),
        sorted_paths(list).to_multiset() == list.to_multiset(),
        sorted_paths(list).filter(|q: Seq<char>| same_path(q, p)) == list.filter(
            |q: Seq<char>| same_path(q, p),
        ),
    decreases list.len(),
{
    let same = |q: Seq<char>| same_path(q, p);
    law_sorted_paths(list);
    if list.len() == 0 {
        assert(sorted_paths(list) == list);
    } else {
        let head = sorted_paths(list.drop_last());
        law_sorting(list.drop_last(), p);
        lemma_insert_is_stable(head, list.last(), p);
        lemma_filter_push(head, list.last(), same);
        lemma_filter_push(list.drop_last(), list.last(), same);
        assert(list.drop_last().push(list.last()) == list);
    }
}

proof fn lemma_insert_is_stable(sorted: Seq<Seq<char>>, x: Seq<char>, p: Seq<char>)
    ensures
        insert_path(sorted, x).filter(|q: Seq<char>| same_path(q, p)) == sorted.push(x).filter(
            |q: Seq<char>| same_path(q, p),
        ),
    decreases sorted.len(),
{
    let same = |q: Seq<char>| same_path(q, p);
    if sorted.len() > 0 && !path_le(sorted.last(), x) {
        let head = sorted.drop_last();
        let last = sorted.last();
        let inner = insert_path(head, x);
        lemma_insert_is_stable(head, x, p);
        law_path_order(last, x, x);
        lemma_filter_push(inner, last, same);
        lemma_filter_push(head, x, same);
        lemma_filter_push(head, last, same);
        lemma_filter_push(sorted, x, same);
        assert(head.push(last) == sorted);
        assert(!(same(last) && same(x)));
    }
}

proof fn lemma_filter_push(list: Seq<Seq<char>>, x: Seq<char>, keep: spec_fn(Seq<char>) -> bool)
    ensures
        list.push(x).filter(keep) == if keep(x) {
            list.filter(keep).push(x)
        } else {
            list.filter(keep)
        },
{
    reveal(Seq::filter);
    assert(list.push(x).drop_last() == list);
}

/// A path lies below another exactly where its components begin with those of the
/// other.
pub proof fn law_within_by_components(p: Seq<char>, base: Seq<char>)
    ensures
        is_within(p, base) <==> exists|rest: Seq<Seq<char>>|
            components(p) == #[trigger] (components(base) + rest),
        is_within(p, base) <==> seen_from(p, base) is Some,
{
    let n = components(base).len() as int;
    if is_within(p, base) {
        assert(components(p) == components(base) + components(p).skip(n));
    }
    if exists|rest: Seq<Seq<char>>| components(p) == #[trigger] (components(base) + rest) {
        let rest = choose|rest: Seq<Seq<char>>|
            components(p) == #[trigger] (components(base) + rest);
        lemma_front_and_back(components(base), rest);
    }
}

/// What is joined to a directory is seen from there again, character for character,
/// where neither its first nor its last piece is empty or `.`.
pub proof fn law_joined_text_is_seen(base: Seq<char>, rel: Seq<char>)
    requires
        rel.len() > 0,
        rel[0] != '/',
        split(rel, '/').first().len() > 0,
        split(rel, '/').first() != seq!['.'],
        split(rel, '/').last().len() > 0,
        split(rel, '/').last() != seq!['.'],
    ensures
        seen_from(joined(base, rel), base) == Some(rel),
{
    let list = split(rel, '/');
    law_components_of_joined(base, rel);
    lemma_front_and_back(components(base), components(rel));
    law_split(rel, '/');
    lemma_split_is_not_empty(rel, '/');
    lemma_trim_keeps_named(list);
    let front = lemma_pieces_of_joined(base, rel);
    lemma_behind_all_named(front, list);
}

/// A path that is not absolute is seen from the current directory, which `.` stands
/// for.
pub proof fn law_absolute_path_of_relative(current: Seq<char>, p: Seq<char>)
    ensures
        p == seq!['.'] ==> absolute_path(current, p) == current,
        p != seq!['.'] ==> absolute_path(current, p) == joined(current, p),
        p != seq!['.'] && (p.len() == 0 || p[0] != '/') && current.len() > 0 && current.last()
            != '/' ==> absolute_path(current, p) == current + seq!['/'] + p,
{
    reveal_strlit(".");
    assert("."@ == seq!['.']);
    assert(current.push('/') + p == current + seq!['/'] + p);
}

/// A path starts at the root directory where `/` is its first character.
pub proof fn law_absolute(p: Seq<char>)
    ensures
        is_absolute(seq!['/'] + p),
        p.len() > 0 ==> (is_absolute(p) <==> p[0] == '/'),
        !is_absolute(Seq::empty()),
{
}

/// A path has a file name exactly where its last component is neither the root
/// directory nor `.` nor `..`.
pub proof fn law_file_name(p: Seq<char>)
    ensures
        has_file_name(p) <==> components(p).len() > 0 && components(p).last() != seq!['/']
            && components(p).last() != seq!['.'] && components(p).last() != seq!['.', '.'],
{
    assert(seq!['.', '.'].len() != seq!['.'].len());
}

proof fn lemma_unsplit_add(a: Seq<Seq<char>>, b: Seq<Seq<char>>, sep: char)
    requires
        a.len() > 0,
        b.len() > 0,
    ensures
        unsplit(a + b, sep) == unsplit(a, sep) + seq![sep] + unsplit(b, sep),
    decreases b.len(),
{
    let rest = b.drop_last();
    let whole = a + b;
    assert(whole.drop_last() == a + rest);
    assert(whole.last() == b.last());
    if b.len() == 1 {
        assert(a + rest == a);
        assert(unsplit(a, sep).push(sep) + b.last() == unsplit(a, sep) + seq![sep] + b.last());
        assert(b.first() == b.last());
    } else {
        lemma_unsplit_add(a, rest, sep);
        assert(unsplit(whole, sep) == (unsplit(a, sep) + seq![sep] + unsplit(rest, sep)).push(sep)
            + b.last());
        assert(unsplit(whole, sep) == unsplit(a, sep) + seq![sep] + (unsplit(rest, sep).push(sep)
            + b.last()));
    }
}

proof fn lemma_unsplit_back(list: Seq<Seq<char>>, k: int, sep: char) -> (at: int)
    requires
        0 <= k < list.len(),
    ensures
        0 <= at <= unsplit(list, sep).len(),
        unsplit(list.skip(k), sep) == unsplit(list, sep).skip(at),
{
    if k == 0 {
        assert(list.skip(0) == list);
        assert(unsplit(list, sep).skip(0) == unsplit(list, sep));
        0
    } else {
        let a = list.take(k);
        let b = list.skip(k);
        lemma_unsplit_add(a, b, sep);
        assert(a + b == list);
        let at = unsplit(a, sep).len() + 1;
        assert(unsplit(list, sep).skip(at as int) == unsplit(b, sep));
        at as int
    }
}

proof fn lemma_unsplit_front(list: Seq<Seq<char>>, k: int, sep: char) -> (at: int)
    requires
        0 < k <= list.len(),
    ensures
        0 <= at <= unsplit(list, sep).len(),
        unsplit(list.take(k), sep) == unsplit(list, sep).take(at),
{
    if k == list.len() {
        assert(list.take(k) == list);
        let at = unsplit(list, sep).len() as int;
        assert(unsplit(list, sep).take(at) == unsplit(list, sep));
        at
    } else {
        let a = list.take(k);
        let b = list.skip(k);
        lemma_unsplit_add(a, b, sep);
        assert(a + b == list);
        let at = unsplit(a, sep).len() as int;
        assert(unsplit(list, sep).take(at) == unsplit(a, sep));
        at
    }
}

proof fn lemma_behind_named_is_a_back(list: Seq<Seq<char>>, k: nat) -> (at: int)
    ensures
        0 <= at <= list.len(),
        behind_named(list, k) == list.skip(at),
    decreases list.len(),
{
    if k == 0 || list.len() == 0 {
        assert(list.skip(0) == list);
        0
    } else {
        let rest = list.drop_first();
        let at = lemma_behind_named_is_a_back(
            rest,
            if is_named(list.first()) {
                (k - 1) as nat
            } else {
                k
            },
        );
        assert(rest.skip(at) == list.skip(at + 1));
        at + 1
    }
}

proof fn lemma_trim_front_is_a_back(list: Seq<Seq<char>>) -> (at: int)
    ensures
        0 <= at <= list.len(),
        trim_front(list) == list.skip(at),
    decreases list.len(),
{
    if list.len() > 0 && !is_named(list.first()) {
        let rest = list.drop_first();
        let at = lemma_trim_front_is_a_back(rest);
        assert(rest.skip(at) == list.skip(at + 1));
        at + 1
    } else {
        assert(list.skip(0) == list);
        0
    }
}

proof fn lemma_trim_back_is_a_front(list: Seq<Seq<char>>) -> (at: int)
    ensures
        0 <= at <= list.len(),
        trim_back(list) == list.take(at),
        trim_back(list).len() > 0 ==> is_named(trim_back(list).last()),
    decreases list.len(),
{
    if list.len() > 0 && !is_named(list.last()) {
        let rest = list.drop_last();
        let at = lemma_trim_back_is_a_front(rest);
        assert(rest.take(at) == list.take(at));
        at
    } else {
        assert(list.take(list.len() as int) == list);
        list.len() as int
    }
}

/// What is seen of a path from a directory above it is a part of the path's own text,
/// which neither begins nor ends with a piece that is empty or `.`; of the directory
/// itself nothing is left.
pub proof fn law_seen_text(p: Seq<char>, base: Seq<char>)
    requires
        is_within(p, base),
        components(base).len() > 0,
    ensures
        seen_from(p, base) matches Some(rel) && {
            &&& components(p).len() == components(base).len() ==> rel.len() == 0
            &&& components(p).len() > components(base).len() ==> {
                &&& split(rel, '/').first().len() > 0
                &&& split(rel, '/').first() != seq!['.']
                &&& split(rel, '/').last().len() > 0
                &&& split(rel, '/').last() != seq!['.']
                &&& exists|i: int, j: int|
                    0 <= i <= j <= p.len() && rel == #[trigger] p.subrange(i, j)
            }
        },
{
    let keep = |s: Seq<char>| is_named(s);
    let n = components(base).len();
    let list = split(p, '/');
    let k = (n - anchor(p).len()) as nat;
    let behind = behind_named(list, k);
    let front = trim_front(behind);
    let part = trim_back(front);
    let rel = unsplit(part, '/');
    law_seen_path(p, base);
    law_split(p, '/');
    lemma_trim_front(behind);
    lemma_trim_back(front);
    let a = lemma_behind_named_is_a_back(list, k);
    let b = lemma_trim_front_is_a_back(behind);
    let c = lemma_trim_back_is_a_front(front);
    assert(front == list.skip(a + b)) by {
        assert(list.skip(a).skip(b) == list.skip(a + b));
    }
    if part.len() > 0 {
        assert forall|i: int| 0 <= i < part.len() implies !(#[trigger] part[i]).contains('/') by {
            assert(part[i] == list[a + b + i]);
        }
        lemma_split_of_unsplit(part, '/');
        assert(part.first() == front.first());
        let from = lemma_unsplit_back(list, a + b, '/');
        let to = lemma_unsplit_front(front, c, '/');
        assert(p.skip(from).take(to) == p.subrange(from, from + to));
        assert(rel == p.subrange(from, from + to));
        if components(p).len() == n {
            assert(components(rel).len() == 0);
            assert(is_named(part.first()));
            lemma_filter_first(part);
            assert(part.filter(keep).len() > 0);
            assert(components(rel).len() >= part.filter(keep).len());
        }
    } else {
        assert(rel == Seq::<char>::empty());
        if components(p).len() > n {
            lemma_components_of_piece(rel);
            assert(components(rel).len() == 0);
        }
    }
}

} // verus!
