//! Text helpers: characters, numbers in decimal, and white space.
use vstd::prelude::*;

verus! {

/// Specifies `String::push`: the character is appended at the end of the
/// string, and nothing else changes.
pub assume_specification[ String::push ](s: &mut String, c: char)
    ensures
        final(s)@ == old(s)@.push(c),
;

/// The texts of a list of strings.
pub open spec fn texts(list: Seq<String>) -> Seq<Seq<char>> {
    list.map_values(|s: String| s@)
}

/// The text of an optional string.
pub open spec fn opt_text(s: Option<String>) -> Option<Seq<char>> {
    match s {
        Some(t) => Some(t@),
        None => None,
    }
}

/// The characters of `s`, in order.
pub fn to_chars(s: &str) -> (r: Vec<char>)
    ensures
        r@ == s@,
{
    let mut out: Vec<char> = Vec::new();
    for c in it: s.chars()
        invariant
            it.seq() == s@,
            out@ == s@.take(it.index()),
    {
        out.push(c);
    }
    out
}

/// A string of the characters `chars[from..to]`.
pub fn from_chars(chars: &Vec<char>, from: usize, to: usize) -> (r: String)
    requires
        from <= to <= chars@.len(),
    ensures
        r@ == chars@.subrange(from as int, to as int),
{
    let mut out = String::new();
    let mut i: usize = from;
    while i < to
        invariant
            from <= i <= to <= chars@.len(),
            out@ == chars@.subrange(from as int, i as int),
        decreases to - i,
    {
        out.push(chars[i]);
        i += 1;
    }
    out
}

/// The two texts, one behind the other.
pub fn concat2(a: &str, b: &str) -> (r: String)
    ensures
        r@ == a@ + b@,
{
    let mut out = a.to_owned();
    out.append(b);
    out
}

/// The three texts, one behind the other.
pub fn concat3(a: &str, b: &str, c: &str) -> (r: String)
    ensures
        r@ == a@ + b@ + c@,
{
    let mut out = a.to_owned();
    out.append(b);
    out.append(c);
    out
}

/// The decimal digit that stands for `d`.
pub open spec fn digit(d: int) -> char {
    if d == 0 {
        '0'
    } else if d == 1 {
        '1'
    } else if d == 2 {
        '2'
    } else if d == 3 {
        '3'
    } else if d == 4 {
        '4'
    } else if d == 5 {
        '5'
    } else if d == 6 {
        '6'
    } else if d == 7 {
        '7'
    } else if d == 8 {
        '8'
    } else {
        '9'
    }
}

/// `n` in decimal, without leading zeros.
pub open spec fn decimal(n: nat) -> Seq<char>
    decreases n,
{
    if n < 10 {
        seq![digit(n as int)]
    } else {
        decimal(n / 10).push(digit((n % 10) as int))
    }
}

fn digit_of(d: usize) -> (c: char)
    requires
        d < 10,
    ensures
        c == digit(d as int),
{
    match d {
        0 => '0',
        1 => '1',
        2 => '2',
        3 => '3',
        4 => '4',
        5 => '5',
        6 => '6',
        7 => '7',
        8 => '8',
        _ => '9',
    }
}

/// `n` written in decimal.
pub fn decimal_text(n: usize) -> (r: String)
    ensures
        r@ == decimal(n as nat),
    decreases n,
{
    if n < 10 {
        let mut out = String::new();
        out.push(digit_of(n));
        assert(out@ == seq![digit(n as int)]);
        out
    } else {
        let mut out = decimal_text(n / 10);
        out.push(digit_of(n % 10));
        out
    }
}

/// Different numbers have different decimal texts.
pub proof fn law_decimal_is_injective(m: nat, n: nat)
    requires
        decimal(m) == decimal(n),
    ensures
        m == n,
    decreases m,
{
    law_decimal(m);
    law_decimal(n);
    assert(decimal(m).last() == digit((m % 10) as int));
    assert(decimal(n).last() == digit((n % 10) as int));
    assert(m % 10 == n % 10);
    if m >= 10 && n >= 10 {
        assert(decimal(m).drop_last() == decimal(m / 10));
        assert(decimal(n).drop_last() == decimal(n / 10));
        law_decimal_is_injective(m / 10, n / 10);
    } else if m >= 10 {
        law_decimal(m / 10);
    } else if n >= 10 {
        law_decimal(n / 10);
    }
}

/// A decimal text is not empty and holds digits only.
pub proof fn law_decimal(n: nat)
    ensures
        decimal(n).len() >= 1,
        forall|i: int| 0 <= i < decimal(n).len() ==> '0' <= #[trigger] decimal(n)[i] <= '9',
    decreases n,
{
    if n >= 10 {
        law_decimal(n / 10);
    }
}

/// Whether `c` has Unicode's `White_Space` property.
pub open spec fn is_white_space(c: char) -> bool {
    let u = c as u32;
    ||| 0x9 <= u <= 0xd
    ||| u == 0x20
    ||| u == 0x85
    ||| u == 0xa0
    ||| u == 0x1680
    ||| 0x2000 <= u <= 0x200a
    ||| u == 0x2028
    ||| u == 0x2029
    ||| u == 0x202f
    ||| u == 0x205f
    ||| u == 0x3000
}

fn white_space(c: char) -> (b: bool)
    ensures
        b == is_white_space(c),
{
    let u: u32 = c as u32;
    (0x9 <= u && u <= 0xd) || u == 0x20 || u == 0x85 || u == 0xa0 || u == 0x1680 || (0x2000 <= u
        && u <= 0x200a) || u == 0x2028 || u == 0x2029 || u == 0x202f || u == 0x205f || u == 0x3000
}

/// `s` without the white space that it begins with.
pub open spec fn trim_start(s: Seq<char>) -> Seq<char>
    decreases s.len(),
{
    if s.len() > 0 && is_white_space(s.first()) {
        trim_start(s.drop_first())
    } else {
        s
    }
}

/// `s` without the white space that it ends with.
pub open spec fn trim_end(s: Seq<char>) -> Seq<char>
    decreases s.len(),
{
    if s.len() > 0 && is_white_space(s.last()) {
        trim_end(s.drop_last())
    } else {
        s
    }
}

/// `s` without the white space at its two ends.
pub open spec fn trimmed(s: Seq<char>) -> Seq<char> {
    trim_end(trim_start(s))
}

/// `s` without the white space at its two ends.
pub fn trim(s: &str) -> (r: String)
    ensures
        r@ == trimmed(s@),
{
    let chars = to_chars(s);
    let mut from: usize = 0;
    assert(s@.skip(0) == s@);
    while from < chars.len() && white_space(chars[from])
        invariant
            chars@ == s@,
            from <= chars@.len(),
            trim_start(s@) == trim_start(s@.skip(from as int)),
        decreases chars@.len() - from,
    {
        assert(s@.skip(from as int).drop_first() == s@.skip(from + 1));
        from += 1;
    }
    assert(trim_start(s@) == s@.skip(from as int));
    let mut to: usize = chars.len();
    assert(s@.subrange(from as int, to as int) == s@.skip(from as int));
    while to > from && white_space(chars[to - 1])
        invariant
            chars@ == s@,
            from <= to <= chars@.len(),
            trimmed(s@) == trim_end(s@.subrange(from as int, to as int)),
        decreases to,
    {
        assert(s@.subrange(from as int, to as int).drop_last() == s@.subrange(
            from as int,
            to - 1,
        ));
        to -= 1;
    }
    from_chars(&chars, from, to)
}

/// What trimming leaves neither begins nor ends with white space, and what it
/// takes away is white space only.
pub proof fn law_trimmed(s: Seq<char>)
    ensures
        trimmed(s).len() > 0 ==> !is_white_space(trimmed(s).first()),
        trimmed(s).len() > 0 ==> !is_white_space(trimmed(s).last()),
        exists|lead: Seq<char>, trail: Seq<char>|
            {
                &&& #[trigger] (lead + trimmed(s) + trail) == s
                &&& forall|i: int| 0 <= i < lead.len() ==> is_white_space(lead[i])
                &&& forall|i: int| 0 <= i < trail.len() ==> is_white_space(trail[i])
            },
{
    let lead = lemma_trim_start(s);
    let trail = lemma_trim_end(trim_start(s));
    assert(lead + trimmed(s) + trail == s);
}

proof fn lemma_trim_start(s: Seq<char>) -> (lead: Seq<char>)
    ensures
        lead + trim_start(s) == s,
        forall|i: int| 0 <= i < lead.len() ==> is_white_space(lead[i]),
        trim_start(s).len() > 0 ==> !is_white_space(trim_start(s).first()),
    decreases s.len(),
{
    if s.len() > 0 && is_white_space(s.first()) {
        let rest = lemma_trim_start(s.drop_first());
        let lead = seq![s.first()] + rest;
        assert(lead + trim_start(s) == s) by {
            assert(lead + trim_start(s) == seq![s.first()] + (rest + trim_start(s.drop_first())));
        }
        lead
    } else {
        assert(Seq::<char>::empty() + s == s);
        Seq::empty()
    }
}

proof fn lemma_trim_end(s: Seq<char>) -> (trail: Seq<char>)
    ensures
        trim_end(s) + trail == s,
        forall|i: int| 0 <= i < trail.len() ==> is_white_space(trail[i]),
        trim_end(s).len() > 0 ==> !is_white_space(trim_end(s).last()),
        trim_end(s).len() > 0 ==> s.len() > 0 && trim_end(s).first() == s.first(),
    decreases s.len(),
{
    if s.len() > 0 && is_white_space(s.last()) {
        let rest = lemma_trim_end(s.drop_last());
        let trail = rest.push(s.last());
        assert(trim_end(s) + trail == (trim_end(s.drop_last()) + rest).push(s.last()));
        trail
    } else {
        assert(s + Seq::<char>::empty() == s);
        Seq::empty()
    }
}

/// A list of strings is as long as the list of its texts, and the `i`-th text is
/// that of the `i`-th string.
pub proof fn law_texts(list: Seq<String>)
    ensures
        texts(list).len() == list.len(),
        forall|i: int| 0 <= i < list.len() ==> #[trigger] texts(list)[i] == list[i]@,
{
}

/// An optional string has a text where it is there, and that text.
pub proof fn law_opt_text(s: Option<String>)
    ensures
        s is None <==> opt_text(s) is None,
        s matches Some(t) ==> opt_text(s) == Some(t@),
{
}

/// A number below ten is written as one digit, and any other as what is written for
/// its tens and then its last digit.
pub proof fn law_decimal_digits(n: nat)
    ensures
        n < 10 ==> decimal(n).len() == 1 && decimal(n)[0] as int == '0' as int + n,
        n >= 10 ==> decimal(n) == decimal(n / 10) + decimal(n % 10),
{
    if n >= 10 {
        assert(decimal(n) == decimal(n / 10) + seq![digit((n % 10) as int)]);
    }
}

/// The characters that are white space, by their code points: those from the
/// horizontal tab to the carriage return, the space, the next line, the no-break
/// space, the Ogham space, the spaces from the en quad to the hair space, the line
/// and the paragraph separator, and the narrow, the mathematical and the ideographic
/// space.
pub proof fn law_white_space(c: char)
    ensures
        is_white_space(c) <==> {
            let u = c as int;
            ||| 9 <= u <= 13
            ||| u == 32
            ||| u == 133
            ||| u == 160
            ||| u == 5760
            ||| 8192 <= u <= 8202
            ||| u == 8232
            ||| u == 8233
            ||| u == 8239
            ||| u == 8287
            ||| u == 12288
        },
{
}

/// Trimming takes the white space around a text away, whatever the text is that
/// neither begins nor ends with white space.
pub proof fn law_trimmed_text(lead: Seq<char>, s: Seq<char>, trail: Seq<char>)
    requires
        forall|i: int| 0 <= i < lead.len() ==> is_white_space(#[trigger] lead[i]),
        forall|i: int| 0 <= i < trail.len() ==> is_white_space(#[trigger] trail[i]),
        s.len() > 0 ==> !is_white_space(s.first()) && !is_white_space(s.last()),
    ensures
        trimmed(lead + s + trail) == s,
    decreases lead.len() + trail.len(),
{
    let all = lead + s + trail;
    if lead.len() > 0 {
        assert(is_white_space(lead[0]));
        assert(all.first() == lead[0]);
        let rest = lead.drop_first();
        assert forall|i: int| 0 <= i < rest.len() implies is_white_space(#[trigger] rest[i]) by {
            assert(is_white_space(lead[i + 1]));
        }
        assert(all.drop_first() == rest + s + trail);
        law_trimmed_text(rest, s, trail);
    } else if s.len() > 0 {
        assert(all == s + trail);
        assert(all.first() == s.first());
        lemma_trim_end_text(s, trail);
    } else if trail.len() > 0 {
        assert(is_white_space(trail[0]));
        assert(all.first() == trail[0]);
        let rest = trail.drop_first();
        assert forall|i: int| 0 <= i < rest.len() implies is_white_space(#[trigger] rest[i]) by {
            assert(is_white_space(trail[i + 1]));
        }
        assert(all.drop_first() == lead + s + rest);
        law_trimmed_text(lead, s, rest);
    } else {
        assert(all == s);
    }
}

proof fn lemma_trim_end_text(s: Seq<char>, trail: Seq<char>)
    requires
        forall|i: int| 0 <= i < trail.len() ==> is_white_space(#[trigger] trail[i]),
        s.len() > 0,
        !is_white_space(s.last()),
    ensures
        trim_end(s + trail) == s,
    decreases trail.len(),
{
    if trail.len() > 0 {
        let rest = trail.drop_last();
        assert(is_white_space(trail[trail.len() - 1]));
        assert((s + trail).last() == trail.last());
        assert forall|i: int| 0 <= i < rest.len() implies is_white_space(#[trigger] rest[i]) by {
            assert(is_white_space(trail[i]));
        }
        assert((s + trail).drop_last() == s + rest);
        lemma_trim_end_text(s, rest);
    } else {
        assert(s + trail == s);
    }
}

} // verus!
