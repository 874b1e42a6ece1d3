//! What a `.ui` form is called in the binary, and the resource list that maps
//! each form to its name there.
use crate::collect::{
    collected, ends_in_extension, found_at, has_extension, is_listing, law_collected_are_the_found,
    law_collected_is_below, law_collected_once, law_found_in, Entry,
};
use crate::path::{joined, law_plain_paths_differ, lemma_name, seen_from};
use crate::text::{
    concat3, decimal, decimal_text, from_chars, law_decimal_is_injective, texts, to_chars,
};
use crate::UI_PREFIX;
use vstd::prelude::*;

verus! {

/// An ASCII digit.
pub open spec fn is_digit(c: char) -> bool {
    '0' <= c <= '9'
}

/// An ASCII letter, an ASCII digit or `_`.
pub open spec fn is_ident_char(c: char) -> bool {
    'a' <= c <= 'z' || 'A' <= c <= 'Z' || is_digit(c) || c == '_'
}

/// `s` with `_` in place of each character that no identifier holds.
pub open spec fn masked(s: Seq<char>) -> Seq<char> {
    s.map_values(
        |c: char|
            if is_ident_char(c) {
                c
            } else {
                '_'
            },
    )
}

/// Whether `_` is put before the text: it is empty or begins with a digit.
pub open spec fn needs_underscore(s: Seq<char>) -> bool {
    s.len() == 0 || is_digit(s.first())
}

/// The identifier that is made of a file name.
pub open spec fn sanitized(s: Seq<char>) -> Seq<char> {
    if needs_underscore(s) {
        seq!['_'] + masked(s)
    } else {
        masked(s)
    }
}

fn digit_char(c: char) -> (r: bool)
    ensures
        r == is_digit(c),
{
    '0' <= c && c <= '9'
}

fn ident_char(c: char) -> (r: bool)
    ensures
        r == is_ident_char(c),
{
    ('a' <= c && c <= 'z') || ('A' <= c && c <= 'Z') || digit_char(c) || c == '_'
}

/// A filesystem-safe identifier derived from a file name.
pub fn sanitize_ident(name: &str) -> (r: String)
    ensures
        r@ == sanitized(name@),
{
    let chars = to_chars(name);
    let mut out = String::new();
    if chars.len() == 0 || digit_char(chars[0]) {
        out.push('_');
    }
    let ghost start = out@;
    assert(start == if needs_underscore(name@) {
        seq!['_']
    } else {
        Seq::<char>::empty()
    });
    let mut i: usize = 0;
    while i < chars.len()
        invariant
            i <= chars@.len(),
            chars@ == name@,
            out@ == start + masked(name@).take(i as int),
        decreases chars@.len() - i,
    {
        let c = chars[i];
        if ident_char(c) {
            out.push(c);
        } else {
            out.push('_');
        }
        assert(masked(name@).take(i + 1) == masked(name@).take(i as int).push(
            masked(name@)[i as int],
        ));
        i += 1;
    }
    assert(masked(name@).take(chars@.len() as int) == masked(name@));
    assert(out@ == sanitized(name@));
    out
}

/// Whether the extension of the path's file name begins at `i`: the last dot of
/// the name is there, the name does not begin with it, and the name is not `..`.
pub open spec fn is_extension_dot(p: Seq<char>, i: int) -> bool {
    &&& 0 < i < p.len()
    &&& p[i] == '.'
    &&& p[i - 1] != '/'
    &&& forall|j: int| i < j < p.len() ==> #[trigger] p[j] != '.' && p[j] != '/'
    &&& !(i == p.len() - 1 && p[i - 1] == '.' && (i == 1 || p[i - 2] == '/'))
}

/// The path without the extension of its file name, and without its dot.
pub open spec fn without_extension(p: Seq<char>) -> Seq<char> {
    if exists|i: int| is_extension_dot(p, i) {
        p.take(choose|i: int| is_extension_dot(p, i))
    } else {
        p
    }
}

/// The path without the extension of its file name, and without its dot.
pub fn strip_extension(p: &str) -> (r: String)
    ensures
        r@ == without_extension(p@),
{
    let chars = to_chars(p);
    let n: usize = chars.len();
    let mut at: usize = n;
    while at > 0 && chars[at - 1] != '.' && chars[at - 1] != '/'
        invariant
            at <= n,
            n == chars@.len(),
            chars@ == p@,
            forall|j: int| at <= j < n ==> #[trigger] p@[j] != '.' && p@[j] != '/',
        decreases at,
    {
        at -= 1;
    }
    let dot = at >= 2 && chars[at - 1] == '.' && chars[at - 2] != '/' && !(at == n && chars[at - 2]
        == '.' && (at == 2 || chars[at - 3] == '/'));
    if dot {
        assert(is_extension_dot(p@, at - 1));
        let ghost i = choose|i: int| is_extension_dot(p@, i);
        assert(i == at - 1) by {
            if i < at - 1 {
                assert(p@[at - 1] != '.');
            } else if i > at - 1 {
                assert(p@[i] != '.');
            }
        }
        assert(p@.subrange(0, at - 1) == p@.take(at - 1));
        from_chars(&chars, 0, at - 1)
    } else {
        assert forall|i: int| !is_extension_dot(p@, i) by {
            if is_extension_dot(p@, i) {
                if i >= at {
                    assert(p@[i] != '.');
                } else if i < at - 1 {
                    assert(p@[at - 1] != '.' && p@[at - 1] != '/');
                }
            }
        }
        p.to_owned()
    }
}

/// `/` or `\`.
pub open spec fn is_separator(c: char) -> bool {
    c == '/' || c == '\\'
}

/// Whether the text holds a separator.
pub open spec fn has_separator(s: Seq<char>) -> bool {
    exists|k: int| 0 <= k < s.len() && is_separator(#[trigger] s[k])
}

/// `s` with `_` in place of each separator.
pub open spec fn flattened(s: Seq<char>) -> Seq<char> {
    s.map_values(
        |c: char|
            if is_separator(c) {
                '_'
            } else {
                c
            },
    )
}

/// `s` with `_` in place of each separator, and whether there was one.
fn flatten(s: &str) -> (r: (String, bool))
    ensures
        r.0@ == flattened(s@),
        r.1 == has_separator(s@),
{
    let chars = to_chars(s);
    let mut out = String::new();
    let mut found = false;
    let mut i: usize = 0;
    while i < chars.len()
        invariant
            i <= chars@.len(),
            chars@ == s@,
            out@ == flattened(s@).take(i as int),
            found == exists|k: int| 0 <= k < i && is_separator(#[trigger] s@[k]),
        decreases chars@.len() - i,
    {
        let c = chars[i];
        if c == '/' || c == '\\' {
            assert(is_separator(s@[i as int]));
            found = true;
            out.push('_');
        } else {
            out.push(c);
        }
        assert(flattened(s@).take(i + 1) == flattened(s@).take(i as int).push(
            flattened(s@)[i as int],
        ));
        i += 1;
    }
    assert(flattened(s@).take(chars@.len() as int) == flattened(s@));
    (out, found)
}

/// The `i`-th form without its extension.
pub open spec fn form_stem(forms: Seq<Seq<char>>, i: int) -> Seq<char> {
    without_extension(forms[i])
}

/// Whether another form is the same as the `i`-th once separators are `_`.
pub open spec fn is_flat_shared(forms: Seq<Seq<char>>, i: int) -> bool {
    exists|j: int|
        0 <= j < forms.len() && j != i && flattened(#[trigger] form_stem(forms, j)) == flattened(
            form_stem(forms, i),
        )
}

/// The name of the `i`-th form. It is the form's path below the form directory
/// without the extension, with separators turned to `_`. A form that would share
/// its name with another keeps its separators.
pub open spec fn form_name(forms: Seq<Seq<char>>, i: int) -> Seq<char> {
    let stem = form_stem(forms, i);
    if has_separator(stem) && is_flat_shared(forms, i) {
        stem
    } else {
        flattened(stem)
    }
}

/// The resource path of the `i`-th form, below `:/`.
pub open spec fn form_alias(forms: Seq<Seq<char>>, i: int) -> Seq<char> {
    UI_PREFIX@ + "/"@ + form_name(forms, i) + ".ui"@
}

/// Whether another form is made the same identifier as the `i`-th.
pub open spec fn is_ident_shared(forms: Seq<Seq<char>>, i: int) -> bool {
    exists|j: int|
        0 <= j < forms.len() && j != i && sanitized(#[trigger] form_stem(forms, j)) == sanitized(
            form_stem(forms, i),
        )
}

/// The identifier of the `i`-th form, with the form's number behind it where
/// another form is made the same.
pub open spec fn form_ident(forms: Seq<Seq<char>>, i: int) -> Seq<char> {
    let ident = sanitized(form_stem(forms, i));
    if is_ident_shared(forms, i) {
        ident + "-"@ + decimal(i as nat)
    } else {
        ident
    }
}

/// The name of the header that `uic` writes for the `i`-th form.
pub open spec fn form_header(forms: Seq<Seq<char>>, i: int) -> Seq<char> {
    "ui_"@ + form_ident(forms, i) + ".h"@
}

/// The name of the `i`-th form. `forms` are the forms as seen from the form
/// directory.
pub fn name_of_form(forms: &Vec<String>, i: usize) -> (r: String)
    requires
        i < forms@.len(),
    ensures
        r@ == form_name(texts(forms@), i as int),
{
    let stem = strip_extension(forms[i].as_str());
    let (flat, nested) = flatten(stem.as_str());
    let ghost all = texts(forms@);
    assert(stem@ == form_stem(all, i as int));
    if !nested {
        return flat;
    }
    let mut j: usize = 0;
    while j < forms.len()
        invariant
            j <= forms@.len(),
            i < forms@.len(),
            all == texts(forms@),
            stem@ == form_stem(all, i as int),
            flat@ == flattened(stem@),
            has_separator(stem@),
            forall|k: int|
                0 <= k < j && k != i ==> flattened(#[trigger] form_stem(all, k)) != flat@,
        decreases forms@.len() - j,
    {
        if j != i {
            let other = strip_extension(forms[j].as_str());
            assert(other@ == form_stem(all, j as int));
            let (other_flat, _) = flatten(other.as_str());
            if other_flat == flat {
                assert(is_flat_shared(all, i as int));
                return stem;
            }
        }
        j += 1;
    }
    flat
}

/// The resource path of the `i`-th form, below `:/`.
pub fn alias_of_form(forms: &Vec<String>, i: usize) -> (r: String)
    requires
        i < forms@.len(),
    ensures
        r@ == form_alias(texts(forms@), i as int),
{
    let name = name_of_form(forms, i);
    let mut out = concat3(UI_PREFIX, "/", name.as_str());
    out.append(".ui");
    out
}

/// The name of the header that `uic` writes for the `i`-th form.
pub fn header_of_form(forms: &Vec<String>, i: usize) -> (r: String)
    requires
        i < forms@.len(),
    ensures
        r@ == form_header(texts(forms@), i as int),
{
    let stem = strip_extension(forms[i].as_str());
    let ident = sanitize_ident(stem.as_str());
    let ghost all = texts(forms@);
    assert(stem@ == form_stem(all, i as int));
    let mut j: usize = 0;
    while j < forms.len()
        invariant
            j <= forms@.len(),
            i < forms@.len(),
            all == texts(forms@),
            ident@ == sanitized(form_stem(all, i as int)),
            forall|k: int|
                0 <= k < j && k != i ==> sanitized(#[trigger] form_stem(all, k)) != ident@,
        decreases forms@.len() - j,
    {
        if j != i {
            let other = strip_extension(forms[j].as_str());
            assert(other@ == form_stem(all, j as int));
            let other_ident = sanitize_ident(other.as_str());
            if other_ident == ident {
                assert(is_ident_shared(all, i as int));
                let number = decimal_text(i);
                let numbered = concat3(ident.as_str(), "-", number.as_str());
                return concat3("ui_", numbered.as_str(), ".h");
            }
        }
        j += 1;
    }
    concat3("ui_", ident.as_str(), ".h")
}

/// How a character is written in XML.
pub open spec fn escaped_char(c: char) -> Seq<char> {
    if c == '&' {
        "&amp;"@
    } else if c == '<' {
        "&lt;"@
    } else if c == '>' {
        "&gt;"@
    } else if c == '"' {
        "&quot;"@
    } else if c == '\t' {
        "&#9;"@
    } else if c == '\n' {
        "&#10;"@
    } else if c == '\r' {
        "&#13;"@
    } else {
        seq![c]
    }
}

/// How a text is written in XML.
pub open spec fn escaped(s: Seq<char>) -> Seq<char>
    decreases s.len(),
{
    if s.len() == 0 {
        Seq::empty()
    } else {
        escaped_char(s.first()) + escaped(s.drop_first())
    }
}

/// How a text is written in XML.
pub fn escape_xml(s: &str) -> (r: String)
    ensures
        r@ == escaped(s@),
{
    let chars = to_chars(s);
    let mut out = String::new();
    let mut i: usize = 0;
    assert(s@.skip(0) == s@);
    assert(out@ + escaped(s@) == escaped(s@));
    while i < chars.len()
        invariant
            i <= chars@.len(),
            chars@ == s@,
            out@ + escaped(s@.skip(i as int)) == escaped(s@),
        decreases chars@.len() - i,
    {
        let c = chars[i];
        let ghost before = out@;
        assert(s@.skip(i as int).drop_first() == s@.skip(i + 1));
        if c == '&' {
            out.append("&amp;");
        } else if c == '<' {
            out.append("&lt;");
        } else if c == '>' {
            out.append("&gt;");
        } else if c == '"' {
            out.append("&quot;");
        } else if c == '\t' {
            out.append("&#9;");
        } else if c == '\n' {
            out.append("&#10;");
        } else if c == '\r' {
            out.append("&#13;");
        } else {
            out.push(c);
            assert(out@ == before + seq![c]);
        }
        assert(out@ == before + escaped_char(c));
        assert(out@ + escaped(s@.skip(i + 1)) == before + escaped(s@.skip(i as int)));
        i += 1;
    }
    assert(s@.skip(chars@.len() as int) == Seq::<char>::empty());
    assert(out@ + escaped(s@.skip(chars@.len() as int)) == out@);
    out
}

/// The line of the resource list that gives the file at `file` the name `alias`.
pub open spec fn resource_line(alias: Seq<char>, file: Seq<char>) -> Seq<char> {
    "        <file alias=\""@ + escaped(alias) + "\">"@ + escaped(file) + "</file>\n"@
}

/// One line for each of the first `n` forms, in order.
pub open spec fn form_lines(files: Seq<Seq<char>>, forms: Seq<Seq<char>>, n: nat) -> Seq<char>
    decreases n,
{
    if n == 0 {
        Seq::empty()
    } else {
        form_lines(files, forms, (n - 1) as nat) + resource_line(
            form_alias(forms, n - 1),
            files[n - 1],
        )
    }
}

/// The resource list that maps every form to its resource path. `files` are the
/// paths of the forms, `forms` the same as seen from the form directory.
pub open spec fn form_list(files: Seq<Seq<char>>, forms: Seq<Seq<char>>) -> Seq<char> {
    "<RCC>\n    <qresource prefix=\"/\">\n"@ + form_lines(files, forms, files.len())
        + "    </qresource>\n</RCC>\n"@
}

/// The text of the synthetic `.qrc` that maps every form to its resource path.
pub fn qrc_of_forms(files: &Vec<String>, forms: &Vec<String>) -> (r: String)
    requires
        files@.len() == forms@.len(),
    ensures
        r@ == form_list(texts(files@), texts(forms@)),
{
    let mut qrc = "<RCC>\n    <qresource prefix=\"/\">\n".to_owned();
    let ghost head = qrc@;
    let mut i: usize = 0;
    assert(head == head + form_lines(texts(files@), texts(forms@), 0));
    while i < files.len()
        invariant
            i <= files@.len(),
            files@.len() == forms@.len(),
            qrc@ == head + form_lines(texts(files@), texts(forms@), i as nat),
        decreases files@.len() - i,
    {
        let alias = alias_of_form(forms, i);
        let shown_alias = escape_xml(alias.as_str());
        let shown_file = escape_xml(files[i].as_str());
        let ghost before = qrc@;
        qrc.append("        <file alias=\"");
        qrc.append(shown_alias.as_str());
        qrc.append("\">");
        qrc.append(shown_file.as_str());
        qrc.append("</file>\n");
        assert(qrc@ == before + resource_line(alias@, files@[i as int]@));
        assert(texts(files@)[i as int] == files@[i as int]@);
        assert(qrc@ == head + form_lines(texts(files@), texts(forms@), (i + 1) as nat));
        i += 1;
    }
    qrc.append("    </qresource>\n</RCC>\n");
    qrc
}

/// Whether `s` is an identifier: not empty, made of identifier characters, and
/// not begun with a digit.
pub open spec fn is_identifier(s: Seq<char>) -> bool {
    &&& s.len() > 0
    &&& !is_digit(s.first())
    &&& forall|i: int| 0 <= i < s.len() ==> is_ident_char(#[trigger] s[i])
}

/// What `sanitize_ident` makes of a name is an identifier, and a name is left as
/// it is exactly where it is one already; so making it twice makes no
/// difference.
pub proof fn law_sanitized(s: Seq<char>)
    ensures
        is_identifier(sanitized(s)),
        is_identifier(s) <==> sanitized(s) == s,
        sanitized(sanitized(s)) == sanitized(s),
{
    assert(is_ident_char('_'));
    let t = sanitized(s);
    assert(masked(t) == t);
    if is_identifier(s) {
        assert(masked(s) == s);
    }
}

/// An extension, without its dot, of which a path can be stripped.
pub open spec fn is_bare_extension(ext: Seq<char>) -> bool {
    ext.len() > 0 && !ext.contains('.') && !ext.contains('/')
}

/// Of a path that ends in an extension, the extension and its dot go.
pub proof fn law_without_extension(p: Seq<char>, ext: Seq<char>)
    requires
        is_bare_extension(ext),
        ends_in_extension(p, ext),
    ensures
        without_extension(p) == p.take(p.len() - ext.len() - 1),
        p == without_extension(p) + seq!['.'] + ext,
{
    let d = p.len() - ext.len() - 1;
    assert forall|j: int| d < j < p.len() implies #[trigger] p[j] != '.' && p[j] != '/' by {
        assert(p.skip(p.len() - ext.len())[j - d - 1] == p[j]);
        assert(ext.contains(ext[j - d - 1]));
    }
    assert(is_extension_dot(p, d));
    let i = choose|i: int| is_extension_dot(p, i);
    if i < d {
        assert(p[d] != '.');
    } else if i > d {
        assert(p[i] != '.');
    }
    assert(p == p.take(d) + seq!['.'] + p.skip(d + 1));
}

/// A form `<name>.ui` directly in the form directory, whatever its name, is a
/// resource at `:/qrc/<name>.ui`.
pub proof fn law_plain_form_keeps_its_name(forms: Seq<Seq<char>>, i: int, name: Seq<char>)
    requires
        0 <= i < forms.len(),
        forms[i] == name + ".ui"@,
        name.len() > 0,
        !has_separator(name),
    ensures
        form_alias(forms, i) == "qrc/"@ + name + ".ui"@,
{
    let rel = name + ".ui"@;
    let ext = seq!['u', 'i'];
    reveal_strlit(".ui");
    reveal_strlit("qrc");
    reveal_strlit("/");
    reveal_strlit("qrc/");
    assert(rel.skip(rel.len() - 2) == ext);
    assert(!is_separator(name[name.len() - 1]));
    law_without_extension(rel, ext);
    assert(rel.take(rel.len() - 3) == name);
    assert(flattened(name) == name) by {
        assert forall|k: int| 0 <= k < name.len() implies flattened(name)[k] == name[k] by {
            assert(!is_separator(name[k]));
        }
    }
    assert(UI_PREFIX@ + "/"@ == "qrc/"@);
}

/// Two forms that differ without the extension have different resource paths and
/// different headers.
pub proof fn law_form_names_differ(forms: Seq<Seq<char>>, i: int, j: int)
    requires
        0 <= i < forms.len(),
        0 <= j < forms.len(),
        i != j,
        form_stem(forms, i) != form_stem(forms, j),
    ensures
        form_alias(forms, i) != form_alias(forms, j),
        form_header(forms, i) != form_header(forms, j),
{
    lemma_form_names_differ(forms, i, j);
    lemma_form_idents_differ(forms, i, j);
    lemma_between(UI_PREFIX@ + "/"@, form_name(forms, i), form_name(forms, j), ".ui"@);
    lemma_between("ui_"@, form_ident(forms, i), form_ident(forms, j), ".h"@);
}

proof fn lemma_flattened(s: Seq<char>)
    ensures
        !has_separator(flattened(s)),
        !has_separator(s) ==> flattened(s) == s,
{
    assert forall|k: int| 0 <= k < s.len() implies !is_separator(#[trigger] flattened(s)[k]) by {}
    if !has_separator(s) {
        assert forall|k: int| 0 <= k < s.len() implies flattened(s)[k] == s[k] by {
            assert(!is_separator(s[k]));
        }
        assert(flattened(s) == s);
    }
}

proof fn lemma_form_names_differ(forms: Seq<Seq<char>>, i: int, j: int)
    requires
        0 <= i < forms.len(),
        0 <= j < forms.len(),
        i != j,
        form_stem(forms, i) != form_stem(forms, j),
    ensures
        form_name(forms, i) != form_name(forms, j),
{
    let a = form_stem(forms, i);
    let b = form_stem(forms, j);
    lemma_flattened(a);
    lemma_flattened(b);
    if flattened(a) == flattened(b) {
        assert(is_flat_shared(forms, i));
        assert(is_flat_shared(forms, j));
    }
}

proof fn lemma_form_idents_differ(forms: Seq<Seq<char>>, i: int, j: int)
    requires
        0 <= i < forms.len(),
        0 <= j < forms.len(),
        i != j,
        form_stem(forms, i) != form_stem(forms, j),
    ensures
        form_ident(forms, i) != form_ident(forms, j),
{
    let a = sanitized(form_stem(forms, i));
    let b = sanitized(form_stem(forms, j));
    law_sanitized(form_stem(forms, i));
    law_sanitized(form_stem(forms, j));
    reveal_strlit("-");
    if form_ident(forms, i) == form_ident(forms, j) {
        if a == b {
            assert(is_ident_shared(forms, i));
            assert(is_ident_shared(forms, j));
            let n = (a + "-"@).len() as int;
            assert(form_ident(forms, i).skip(n) == decimal(i as nat));
            assert(form_ident(forms, j).skip(n) == decimal(j as nat));
            law_decimal_is_injective(i as nat, j as nat);
        } else if is_ident_shared(forms, i) && is_ident_shared(forms, j) {
            let t = form_ident(forms, i);
            assert(t == a + "-"@ + decimal(i as nat));
            assert(t == b + "-"@ + decimal(j as nat));
            assert(t[a.len() as int] == '-');
            assert(t[b.len() as int] == '-');
            if a.len() < b.len() {
                assert(b[a.len() as int] == t[a.len() as int]);
                assert(is_ident_char(b[a.len() as int]));
            } else if b.len() < a.len() {
                assert(a[b.len() as int] == t[b.len() as int]);
                assert(is_ident_char(a[b.len() as int]));
            } else {
                assert(t.take(a.len() as int) == a);
                assert(t.take(a.len() as int) == b);
            }
        } else if is_ident_shared(forms, i) {
            assert(b[a.len() as int] == '-');
            assert(is_ident_char(b[a.len() as int]));
        } else if is_ident_shared(forms, j) {
            assert(a[b.len() as int] == '-');
            assert(is_ident_char(a[b.len() as int]));
        }
    }
}

proof fn lemma_between(front: Seq<char>, a: Seq<char>, b: Seq<char>, back: Seq<char>)
    ensures
        front + a + back == front + b + back ==> a == b,
{
    if front + a + back == front + b + back {
        assert((front + a + back).len() == (front + b + back).len());
        assert((front + a + back).subrange(front.len() as int, (front + a).len() as int) == a);
        assert((front + b + back).subrange(front.len() as int, (front + b).len() as int) == b);
    }
}

/// The files as seen from the directory.
pub open spec fn seen_files(dir: Seq<char>, files: Seq<Seq<char>>) -> Seq<Seq<char>> {
    files.map_values(|f: Seq<char>| seen_from(f, dir)->0)
}

/// All forms of a directory have resource paths of their own and headers of
/// their own.
pub proof fn law_forms_stay_apart(dir: Seq<char>, list: Vec<Entry>, i: int, j: int)
    requires
        is_listing(list@),
        0 <= i < j < collected(dir, Some(list), "ui"@).len(),
    ensures
        ({
            let forms = seen_files(dir, collected(dir, Some(list), "ui"@));
            &&& form_alias(forms, i) != form_alias(forms, j)
            &&& form_header(forms, i) != form_header(forms, j)
        }),
{
    let files = collected(dir, Some(list), "ui"@);
    let forms = seen_files(dir, files);
    reveal_strlit("ui");
    law_collected_is_below(dir, list, "ui"@, i);
    law_collected_is_below(dir, list, "ui"@, j);
    law_without_extension(forms[i], "ui"@);
    law_without_extension(forms[j], "ui"@);
    law_collected_once(dir, list, "ui"@);
    law_form_names_differ(forms, i, j);
}

/// A file `<name>.ui` of the form directory is one of the collected forms, and is a
/// resource at `:/qrc/<name>.ui`.
pub proof fn law_a_listed_form_is_at_its_name(
    dir: Seq<char>,
    list: Vec<Entry>,
    k: int,
    name: Seq<char>,
)
    requires
        is_listing(list@),
        0 <= k < list@.len(),
        list@[k] matches Entry::File { name: n } && n@ == name + ".ui"@,
        name.len() > 0,
        !has_separator(name),
    ensures
        exists|i: int|
            {
                &&& 0 <= i < collected(dir, Some(list), "ui"@).len()
                &&& #[trigger] collected(dir, Some(list), "ui"@)[i] == joined(dir, name + ".ui"@)
                &&& form_alias(seen_files(dir, collected(dir, Some(list), "ui"@)), i) == "qrc/"@
                    + name + ".ui"@
            },
{
    let files = collected(dir, Some(list), "ui"@);
    let forms = seen_files(dir, files);
    let file = name + ".ui"@;
    reveal_strlit("ui");
    reveal_strlit(".ui");
    assert(!is_separator(name[0]));
    assert(file.skip(file.len() - 2) == "ui"@);
    assert(file.len() > 3);
    assert(has_extension(file, "ui"@));
    assert(!file.contains('/')) by {
        if file.contains('/') {
            let c = choose|c: int| 0 <= c < file.len() && file[c] == '/';
            if c < name.len() {
                assert(is_separator(name[c]));
            }
        }
    }
    let p = joined(dir, file);
    let own = found_at(list@[k], dir, "ui"@);
    assert(own[0] == p);
    assert(own.contains(p));
    law_found_in(list@, dir, "ui"@, p);
    law_collected_are_the_found(dir, list, "ui"@, p);
    let i = choose|i: int| 0 <= i < files.len() && files[i] == p;
    law_collected_is_below(dir, list, "ui"@, i);
    lemma_name(file);
    law_plain_paths_differ(dir, forms[i], file);
    law_plain_form_keeps_its_name(forms, i, name);
    assert(files[i] == p);
}

/// The resource list holds a line for each form, which maps it to its resource
/// path.
pub proof fn law_every_form_is_listed(files: Seq<Seq<char>>, forms: Seq<Seq<char>>, i: int)
    requires
        0 <= i < files.len(),
    ensures
        exists|before: Seq<char>, after: Seq<char>|
            #[trigger] (before + resource_line(form_alias(forms, i), files[i]) + after)
                == form_list(files, forms),
{
    let line = resource_line(form_alias(forms, i), files[i]);
    let head = "<RCC>\n    <qresource prefix=\"/\">\n"@;
    let tail = "    </qresource>\n</RCC>\n"@;
    let (before, after) = lemma_form_lines(files, forms, files.len(), i);
    assert((head + before) + line + (after + tail) == form_list(files, forms));
}

proof fn lemma_form_lines(files: Seq<Seq<char>>, forms: Seq<Seq<char>>, n: nat, i: int) -> (r: (
    Seq<char>,
    Seq<char>,
))
    requires
        0 <= i < n,
    ensures
        r.0 + resource_line(form_alias(forms, i), files[i]) + r.1 == form_lines(files, forms, n),
    decreases n,
{
    let line = resource_line(form_alias(forms, i), files[i]);
    let last = resource_line(form_alias(forms, n - 1), files[n - 1]);
    if i == n - 1 {
        let before = form_lines(files, forms, (n - 1) as nat);
        assert(before + line + Seq::<char>::empty() == form_lines(files, forms, n));
        (before, Seq::empty())
    } else {
        let (before, after) = lemma_form_lines(files, forms, (n - 1) as nat, i);
        assert(before + line + (after + last) == form_lines(files, forms, n));
        (before, after + last)
    }
}

/// Whether the character stands for itself in XML.
pub open spec fn is_xml_plain(c: char) -> bool {
    c != '&' && c != '<' && c != '>' && c != '"' && c != '\t' && c != '\n' && c != '\r'
}

/// A text in which every character stands for itself is written as it is, and
/// different texts are written differently.
pub proof fn law_escaped(s: Seq<char>, t: Seq<char>)
    ensures
        (forall|k: int| 0 <= k < s.len() ==> is_xml_plain(#[trigger] s[k])) ==> escaped(s) == s,
        escaped(s) == escaped(t) ==> s == t,
    decreases s.len(),
{
    reveal_strlit("&amp;");
    reveal_strlit("&lt;");
    reveal_strlit("&gt;");
    reveal_strlit("&quot;");
    reveal_strlit("&#9;");
    reveal_strlit("&#10;");
    reveal_strlit("&#13;");
    if s.len() > 0 {
        let x = s.first();
        let u = escaped(s.drop_first());
        law_escaped(s.drop_first(), t.drop_first());
        if forall|k: int| 0 <= k < s.len() ==> is_xml_plain(#[trigger] s[k]) {
            assert forall|k: int| 0 <= k < s.drop_first().len() implies is_xml_plain(
                #[trigger] s.drop_first()[k],
            ) by {
                assert(is_xml_plain(s[k + 1]));
            }
            assert(is_xml_plain(s[0]));
            assert(seq![x] + s.drop_first() == s);
        }
        if escaped(s) == escaped(t) {
            assert(escaped(s)[0] == escaped_char(x)[0]);
            assert(t.len() > 0);
            lemma_escaped_first(x, t.first(), u, escaped(t.drop_first()));
            assert(seq![x] + s.drop_first() == s);
            assert(seq![t.first()] + t.drop_first() == t);
        }
    } else if t.len() > 0 {
        assert(escaped(t)[0] == escaped_char(t.first())[0]);
        assert(escaped(t).len() > 0);
    } else {
        assert(s == t);
        assert(escaped(s) == s);
    }
}

proof fn lemma_escaped_first(x: char, y: char, u: Seq<char>, v: Seq<char>)
    requires
        escaped_char(x) + u == escaped_char(y) + v,
    ensures
        x == y,
        u == v,
{
    reveal_strlit("&amp;");
    reveal_strlit("&lt;");
    reveal_strlit("&gt;");
    reveal_strlit("&quot;");
    reveal_strlit("&#9;");
    reveal_strlit("&#10;");
    reveal_strlit("&#13;");
    let a = escaped_char(x);
    let b = escaped_char(y);
    let w = a + u;
    assert(w == b + v);
    assert(a[0] == w[0] && b[0] == w[0]);
    if a.len() > 1 && b.len() > 1 {
        assert(a[1] == w[1] && b[1] == w[1]);
        assert(a[2] == w[2] && b[2] == w[2]);
        assert(a[3] == w[3] && b[3] == w[3]);
    }
    assert(x == y);
    assert(w.skip(a.len() as int) == u);
    assert(w.skip(a.len() as int) == v);
}

/// An identifier is made of a name character by character: an ASCII letter, an ASCII
/// digit and `_` stay, and anything else becomes `_`. One `_` is put before it where the
/// name is empty or begins with a digit, and nothing else.
pub proof fn law_sanitized_characters(s: Seq<char>)
    ensures
        s.len() == 0 || '0' <= s[0] <= '9' ==> sanitized(s).len() == s.len() + 1 && sanitized(s)[0]
            == '_',
        !(s.len() == 0 || '0' <= s[0] <= '9') ==> sanitized(s).len() == s.len(),
        forall|k: int|
            #![trigger s[k]]
            0 <= k < s.len() ==> sanitized(s)[sanitized(s).len() - s.len() + k] == if 'a' <= s[k]
                <= 'z' || 'A' <= s[k] <= 'Z' || '0' <= s[k] <= '9' || s[k] == '_' {
                s[k]
            } else {
                '_'
            },
{
}

/// The last dot of a file name starts its extension, which goes together with the dot,
/// unless the name begins with that dot or is `..`.
pub proof fn law_stem(front: Seq<char>, ext: Seq<char>)
    requires
        front.len() > 0,
        front.last() != '/',
        !ext.contains('.'),
        !ext.contains('/'),
        !(ext.len() == 0 && front.last() == '.' && (front.len() == 1 || front[front.len() - 2]
            == '/')),
    ensures
        without_extension(front + seq!['.'] + ext) == front,
{
    let p = front + seq!['.'] + ext;
    let d = front.len() as int;
    assert forall|j: int| d < j < p.len() implies #[trigger] p[j] != '.' && p[j] != '/' by {
        assert(ext.contains(ext[j - d - 1]));
    }
    assert(is_extension_dot(p, d));
    let i = choose|i: int| is_extension_dot(p, i);
    if i < d {
        assert(p[d] != '.');
    } else if i > d {
        assert(p[i] != '.');
    }
    assert(p.take(d) == front);
}

/// A file name without a dot, or with none but the one that it begins with, has no
/// extension, and neither has `..`: its path stays as it is.
pub proof fn law_no_extension(dir: Seq<char>, name: Seq<char>)
    requires
        dir.len() == 0 || dir.last() == '/',
        !name.contains('.'),
        !name.contains('/'),
    ensures
        without_extension(dir + name) == dir + name,
        without_extension(dir + seq!['.'] + name) == dir + seq!['.'] + name,
        without_extension(dir + seq!['.', '.']) == dir + seq!['.', '.'],
{
    let n = dir.len() as int;
    let p = dir + name;
    assert forall|i: int| !is_extension_dot(p, i) by {
        if is_extension_dot(p, i) {
            if i >= n {
                assert(name.contains(name[i - n]));
            } else if i < n - 1 {
                assert(p[n - 1] != '/');
            }
        }
    }
    let q = dir + seq!['.'] + name;
    assert forall|i: int| !is_extension_dot(q, i) by {
        if is_extension_dot(q, i) {
            if i > n {
                assert(name.contains(name[i - n - 1]));
            } else if i == n {
                assert(n > 0 ==> q[n - 1] == '/');
            } else if i < n - 1 {
                assert(q[n - 1] != '/');
            }
        }
    }
    let r = dir + seq!['.', '.'];
    assert forall|i: int| !is_extension_dot(r, i) by {
        if is_extension_dot(r, i) {
            if i == n {
                assert(r[n + 1] != '.');
            } else if i < n {
                assert(r[n] != '.');
            }
        }
    }
}

/// Whether the two texts are the same once each `/` and each `\` is `_`.
pub open spec fn is_same_when_flat(a: Seq<char>, b: Seq<char>) -> bool {
    &&& a.len() == b.len()
    &&& forall|k: int|
        #![trigger a[k]]
        0 <= k < a.len() ==> a[k] == b[k] || ((a[k] == '/' || a[k] == '\\' || a[k] == '_') && (b[k]
            == '/' || b[k] == '\\' || b[k] == '_'))
}

proof fn lemma_same_when_flat(a: Seq<char>, b: Seq<char>)
    ensures
        is_same_when_flat(a, b) <==> flattened(a) == flattened(b),
{
    if is_same_when_flat(a, b) {
        assert forall|k: int| 0 <= k < a.len() implies flattened(a)[k] == flattened(b)[k] by {
            assert(a[k] == a[k]);
        }
        assert(flattened(a) == flattened(b));
    }
    if flattened(a) == flattened(b) {
        assert(flattened(a).len() == flattened(b).len());
        assert forall|k: int|
            #![trigger a[k]]
            0 <= k < a.len() implies a[k] == b[k] || ((a[k] == '/' || a[k] == '\\' || a[k] == '_')
            && (b[k] == '/' || b[k] == '\\' || b[k] == '_')) by {
            assert(flattened(a)[k] == flattened(b)[k]);
        }
    }
}

/// The resource path of a form is `qrc/`, its path below the form directory, and `.ui`.
/// Each separator in it is `_`, and every other character stays, at its place. Only where
/// another form would be the same that way, a form in a subdirectory keeps its
/// separators.
pub proof fn law_form_alias(forms: Seq<Seq<char>>, stems: Seq<Seq<char>>, i: int)
    requires
        stems.len() == forms.len(),
        forall|j: int|
            0 <= j < forms.len() ==> #[trigger] forms[j] == stems[j] + ".ui"@ && stems[j].len() > 0
                && stems[j].last() != '/',
        0 <= i < forms.len(),
    ensures
        !(exists|j: int|
            0 <= j < forms.len() && j != i && is_same_when_flat(stems[i], #[trigger] stems[j])) || !(
        stems[i].contains('/') || stems[i].contains('\\')) ==> {
            &&& form_alias(forms, i).len() == 4 + stems[i].len() + 3
            &&& form_alias(forms, i).take(4) == "qrc/"@
            &&& form_alias(forms, i).skip((4 + stems[i].len()) as int) == ".ui"@
            &&& forall|k: int|
                #![trigger stems[i][k]]
                0 <= k < stems[i].len() ==> form_alias(forms, i)[4 + k] == if stems[i][k] == '/'
                    || stems[i][k] == '\\' {
                    '_'
                } else {
                    stems[i][k]
                }
        },
        (exists|j: int|
            0 <= j < forms.len() && j != i && is_same_when_flat(stems[i], #[trigger] stems[j])) && (
        stems[i].contains('/') || stems[i].contains('\\')) ==> form_alias(forms, i) == "qrc/"@
            + stems[i] + ".ui"@,
{
    let stem = stems[i];
    lemma_form_stems(forms, stems);
    assert(form_stem(forms, i) == stem);
    reveal_strlit("qrc");
    reveal_strlit("/");
    reveal_strlit("qrc/");
    reveal_strlit(".ui");
    assert(UI_PREFIX@ + "/"@ == "qrc/"@);
    lemma_holds_separator(stem);
    let shared = exists|j: int|
        0 <= j < forms.len() && j != i && is_same_when_flat(stem, #[trigger] stems[j]);
    assert(shared <==> is_flat_shared(forms, i)) by {
        if shared {
            let j = choose|j: int|
                0 <= j < forms.len() && j != i && is_same_when_flat(stem, #[trigger] stems[j]);
            lemma_same_when_flat(stem, stems[j]);
            assert(form_stem(forms, j) == stems[j]);
        }
        if is_flat_shared(forms, i) {
            let j = choose|j: int|
                0 <= j < forms.len() && j != i && flattened(#[trigger] form_stem(forms, j))
                    == flattened(form_stem(forms, i));
            lemma_same_when_flat(stem, stems[j]);
            assert(form_stem(forms, j) == stems[j]);
            assert(is_same_when_flat(stem, stems[j]));
        }
    }
    let alias = form_alias(forms, i);
    assert(alias == "qrc/"@ + form_name(forms, i) + ".ui"@);
    if !shared || !has_separator(stem) {
        assert(form_name(forms, i) == flattened(stem));
        assert(alias.take(4) == "qrc/"@);
        assert(alias.skip((4 + stem.len()) as int) == ".ui"@);
        assert forall|k: int| #![trigger stem[k]] 0 <= k < stem.len() implies alias[4 + k] == if stem[k]
            == '/' || stem[k] == '\\' {
            '_'
        } else {
            stem[k]
        } by {
            assert(alias[4 + k] == flattened(stem)[k]);
        }
    }
}

proof fn lemma_holds_separator(s: Seq<char>)
    ensures
        has_separator(s) <==> s.contains('/') || s.contains('\\'),
{
    if has_separator(s) {
        let k = choose|k: int| 0 <= k < s.len() && is_separator(#[trigger] s[k]);
        assert(s.contains(s[k]));
    }
    if s.contains('/') {
        let k = choose|k: int| 0 <= k < s.len() && s[k] == '/';
        assert(is_separator(s[k]));
    }
    if s.contains('\\') {
        let k = choose|k: int| 0 <= k < s.len() && s[k] == '\\';
        assert(is_separator(s[k]));
    }
}

proof fn lemma_form_stems(forms: Seq<Seq<char>>, stems: Seq<Seq<char>>)
    requires
        stems.len() == forms.len(),
        forall|j: int|
            0 <= j < forms.len() ==> #[trigger] forms[j] == stems[j] + ".ui"@ && stems[j].len() > 0
                && stems[j].last() != '/',
    ensures
        forall|j: int| 0 <= j < forms.len() ==> #[trigger] form_stem(forms, j) == stems[j],
{
    assert forall|j: int| 0 <= j < forms.len() implies #[trigger] form_stem(forms, j)
        == stems[j] by {
        assert(forms[j] == stems[j] + ".ui"@);
        lemma_stem_of_form(stems[j]);
    }
}

proof fn lemma_stem_of_form(stem: Seq<char>)
    requires
        stem.len() > 0,
        stem.last() != '/',
    ensures
        without_extension(stem + ".ui"@) == stem,
{
    let ext = seq!['u', 'i'];
    reveal_strlit(".ui");
    assert(stem + ".ui"@ == stem + seq!['.'] + ext);
    assert(!ext.contains('.') && !ext.contains('/'));
    law_stem(stem, ext);
}

/// The header of a form is `ui_`, the identifier that is made of its path below the form
/// directory, and `.h`. Only where another form is made the same identifier, the form's
/// number stands behind it.
pub proof fn law_form_header(forms: Seq<Seq<char>>, stems: Seq<Seq<char>>, i: int)
    requires
        stems.len() == forms.len(),
        forall|j: int|
            0 <= j < forms.len() ==> #[trigger] forms[j] == stems[j] + ".ui"@ && stems[j].len() > 0
                && stems[j].last() != '/',
        0 <= i < forms.len(),
    ensures
        (forall|j: int|
            0 <= j < forms.len() && j != i ==> sanitized(#[trigger] stems[j]) != sanitized(stems[i]))
            ==> form_header(forms, i) == "ui_"@ + sanitized(stems[i]) + ".h"@,
        (exists|j: int|
            0 <= j < forms.len() && j != i && sanitized(#[trigger] stems[j]) == sanitized(stems[i]))
            ==> form_header(forms, i) == "ui_"@ + sanitized(stems[i]) + "-"@ + decimal(i as nat)
            + ".h"@,
{
    lemma_form_stems(forms, stems);
    assert(form_stem(forms, i) == stems[i]);
    if exists|j: int|
        0 <= j < forms.len() && j != i && sanitized(#[trigger] stems[j]) == sanitized(stems[i]) {
        let j = choose|j: int|
            0 <= j < forms.len() && j != i && sanitized(#[trigger] stems[j]) == sanitized(stems[i]);
        assert(form_stem(forms, j) == stems[j]);
        assert(is_ident_shared(forms, i));
        assert("ui_"@ + (sanitized(stems[i]) + "-"@ + decimal(i as nat)) + ".h"@ == "ui_"@
            + sanitized(stems[i]) + "-"@ + decimal(i as nat) + ".h"@);
    } else if is_ident_shared(forms, i) {
        let j = choose|j: int|
            0 <= j < forms.len() && j != i && sanitized(#[trigger] form_stem(forms, j))
                == sanitized(form_stem(forms, i));
        assert(sanitized(stems[j]) == sanitized(stems[i]));
    }
}

/// A text is written in XML character by character. The characters that mean something
/// there are written as what XML has for them, and every other one as it is.
pub proof fn law_escaping(a: Seq<char>, b: Seq<char>, c: char)
    ensures
        escaped(Seq::empty()) == Seq::<char>::empty(),
        escaped(a + b) == escaped(a) + escaped(b),
        escaped(seq!['&']) == "&amp;"@,
        escaped(seq!['<']) == "&lt;"@,
        escaped(seq!['>']) == "&gt;"@,
        escaped(seq!['"']) == "&quot;"@,
        escaped(seq!['\t']) == "&#9;"@,
        escaped(seq!['\n']) == "&#10;"@,
        escaped(seq!['\r']) == "&#13;"@,
        c != '&' && c != '<' && c != '>' && c != '"' && c != '\t' && c != '\n' && c != '\r'
            ==> escaped(seq![c]) == seq![c],
    decreases a.len(),
{
    lemma_escaped_one('&');
    lemma_escaped_one('<');
    lemma_escaped_one('>');
    lemma_escaped_one('"');
    lemma_escaped_one('\t');
    lemma_escaped_one('\n');
    lemma_escaped_one('\r');
    lemma_escaped_one(c);
    if a.len() == 0 {
        assert(a + b == b);
        assert(escaped(a) + escaped(b) == escaped(b));
    } else {
        law_escaping(a.drop_first(), b, c);
        assert((a + b).first() == a.first());
        assert((a + b).drop_first() == a.drop_first() + b);
        assert(escaped_char(a.first()) + (escaped(a.drop_first()) + escaped(b)) == escaped_char(
            a.first(),
        ) + escaped(a.drop_first()) + escaped(b));
    }
}

proof fn lemma_escaped_one(c: char)
    ensures
        escaped(seq![c]) == escaped_char(c),
{
    reveal_with_fuel(escaped, 2);
    assert(seq![c].drop_first() == Seq::<char>::empty());
    assert(escaped_char(c) + Seq::<char>::empty() == escaped_char(c));
}

/// The resource list is the opening lines with the prefix `/`, one line for each file in
/// order, and the closing lines, and nothing besides, however many files there are.
pub proof fn law_form_list(
    files: Seq<Seq<char>>,
    forms: Seq<Seq<char>>,
    lines: Seq<Seq<char>>,
)
    requires
        lines.len() == files.len(),
        forall|i: int|
            0 <= i < files.len() ==> #[trigger] lines[i] == "        <file alias=\""@ + escaped(
                form_alias(forms, i),
            ) + "\">"@ + escaped(files[i]) + "</file>\n"@,
    ensures
        form_list(files, forms) == "<RCC>\n    <qresource prefix=\"/\">\n"@ + lines.flatten()
            + "    </qresource>\n</RCC>\n"@,
{
    lemma_form_lines_flatten(files, forms, lines, lines.len());
    assert(lines.take(lines.len() as int) == lines);
}

proof fn lemma_form_lines_flatten(
    files: Seq<Seq<char>>,
    forms: Seq<Seq<char>>,
    lines: Seq<Seq<char>>,
    n: nat,
)
    requires
        n <= lines.len(),
        lines.len() == files.len(),
        forall|i: int|
            0 <= i < files.len() ==> #[trigger] lines[i] == "        <file alias=\""@ + escaped(
                form_alias(forms, i),
            ) + "\">"@ + escaped(files[i]) + "</file>\n"@,
    ensures
        form_lines(files, forms, n) == lines.take(n as int).flatten(),
    decreases n,
{
    if n == 0 {
        assert(lines.take(0) == Seq::<Seq<char>>::empty());
        assert(lines.take(0).flatten() == Seq::<char>::empty());
    } else {
        let m = (n - 1) as nat;
        lemma_form_lines_flatten(files, forms, lines, m);
        lines.take(m as int).lemma_flatten_push(lines[m as int]);
        assert(lines.take(m as int).push(lines[m as int]) == lines.take(n as int));
    }
}

/// The files are seen from the directory one by one.
pub proof fn law_seen_files(dir: Seq<char>, files: Seq<Seq<char>>)
    ensures
        seen_files(dir, files).len() == files.len(),
        forall|i: int|
            0 <= i < files.len() && seen_from(files[i], dir) is Some ==> Some(
                #[trigger] seen_files(dir, files)[i],
            ) == seen_from(files[i], dir),
{
}

} // verus!
