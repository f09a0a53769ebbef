//! Text helpers: concatenation, ASCII folding, decimal rendering, trimming.

use vstd::prelude::*;

verus! {

/// `String::push_str` appends the given slice at the end of the string.
pub assume_specification[ std::string::String::push_str ](s: &mut std::string::String, string: &str)
    ensures
        final(s)@ == old(s)@ + string@,
;

/// `String::push` appends the given character at the end of the string.
pub assume_specification[ std::string::String::push ](s: &mut std::string::String, ch: char)
    ensures
        final(s)@ == old(s)@.push(ch),
;

/// `==` on string slices compares their contents.
pub assume_specification[ <str as PartialEq>::eq ](s: &str, other: &str) -> (res: bool)
    ensures
        res == (s@ == other@),
;

/// Whether two texts hold the same characters.
pub fn same_text(a: &str, b: &str) -> (r: bool)
    ensures
        r == (a@ == b@),
{
    a.eq(b)
}

/// `a` followed by `b`.
pub fn concat2(a: &str, b: &str) -> (r: String)
    ensures
        r@ == a@ + b@,
{
    let mut out = a.to_owned();
    out.push_str(b);
    out
}

/// `a`, `b` and `c` in order.
pub fn concat3(a: &str, b: &str, c: &str) -> (r: String)
    ensures
        r@ == a@ + b@ + c@,
{
    let mut out = concat2(a, b);
    out.push_str(c);
    out
}

/// The four parts in order.
pub fn concat4(a: &str, b: &str, c: &str, d: &str) -> (r: String)
    ensures
        r@ == a@ + b@ + c@ + d@,
{
    let mut out = concat3(a, b, c);
    out.push_str(d);
    out
}

/// The five parts in order.
pub fn concat5(a: &str, b: &str, c: &str, d: &str, e: &str) -> (r: String)
    ensures
        r@ == a@ + b@ + c@ + d@ + e@,
{
    let mut out = concat3(a, b, c);
    out.push_str(d);
    out.push_str(e);
    out
}

/// The characters of a text, in order.
pub fn chars_of(s: &str) -> (r: Vec<char>)
    ensures
        r@ == s@,
{
    let mut out: Vec<char> = Vec::new();
    for c in iter: s.chars()
        invariant
            iter.seq() == s@,
            out@ == s@.take(iter.index() as int),
    {
        proof {
            assert(s@.take(iter.index() + 1) =~= s@.take(iter.index() as int).push(
                s@[iter.index() as int],
            ));
        }
        out.push(c);
    }
    proof {
        assert(s@.take(s@.len() as int) =~= s@);
    }
    out
}

/// The UTF-8 bytes of a text.
pub fn bytes_of(s: &str) -> (r: Vec<u8>)
    ensures
        r@ == vstd::utf8::encode_utf8(s@),
{
    let mut out: Vec<u8> = Vec::new();
    out.extend_from_slice(s.as_bytes());
    proof {
        assert(out@ =~= vstd::utf8::encode_utf8(s@));
    }
    out
}

/// The text made of `chars[from..to]`.
pub fn text_range(chars: &Vec<char>, from: usize, to: usize) -> (r: String)
    requires
        from <= to <= chars@.len(),
    ensures
        r@ == chars@.subrange(from as int, to as int),
{
    let mut out = String::new();
    let mut i: usize = from;
    while i < to
        invariant
            from <= i <= to <= chars@.len(),
            out@ == chars@.subrange(from as int, i as int),
        decreases to - i,
    {
        out.push(chars[i]);
        i += 1;
        proof {
            assert(chars@.subrange(from as int, i as int) =~= chars@.subrange(
                from as int,
                i - 1,
            ).push(chars@[i - 1]));
        }
    }
    out
}

/// The digit that stands for `d`.
pub open spec fn digit_char(d: nat) -> char {
    (48 + d) as char
}

/// The decimal digits of `n`, most significant first, without leading zeros.
pub open spec fn decimal_digits(n: nat) -> Seq<char>
    decreases n,
{
    if n < 10 {
        seq![digit_char(n)]
    } else {
        decimal_digits(n / 10).push(digit_char(n % 10))
    }
}

/// Renders `n` in decimal.
pub fn decimal(n: u64) -> (r: String)
    ensures
        r@ == decimal_digits(n as nat),
    decreases n,
{
    let mut out = if n < 10 {
        String::new()
    } else {
        decimal(n / 10)
    };
    let d: u8 = (n % 10) as u8;
    out.push((48 + d) as char);
    out
}

/// ASCII lower case of one character; other characters stay as they are.
pub open spec fn lower_char(c: char) -> char {
    if 'A' <= c && c <= 'Z' {
        (c as u32 + 32) as char
    } else {
        c
    }
}

/// ASCII lower case of a text.
pub open spec fn lower(s: Seq<char>) -> Seq<char> {
    s.map_values(|c: char| lower_char(c))
}

/// Folds one ASCII letter to lower case.
pub fn to_lower_char(c: char) -> (r: char)
    ensures
        r == lower_char(c),
{
    if 'A' <= c && c <= 'Z' {
        let b: u8 = c as u8;
        (b + 32) as char
    } else {
        c
    }
}

/// Folds the ASCII letters of a text to lower case.
pub fn to_lower(s: &str) -> (r: String)
    ensures
        r@ == lower(s@),
{
    let mut out = String::new();
    for c in iter: s.chars()
        invariant
            iter.seq() == s@,
            out@ == lower(s@.take(iter.index() as int)),
    {
        proof {
            assert(lower(s@.take(iter.index() + 1)) =~= lower(s@.take(iter.index() as int)).push(
                lower_char(s@[iter.index() as int]),
            ));
        }
        out.push(to_lower_char(c));
    }
    proof {
        assert(s@.take(s@.len() as int) =~= s@);
    }
    out
}

/// Whether `s` begins with `prefix`.
pub open spec fn has_prefix(s: Seq<char>, prefix: Seq<char>) -> bool {
    prefix.len() <= s.len() && s.take(prefix.len() as int) == prefix
}

/// What follows `prefix` in `s`, if `s` begins with it.
pub open spec fn after_prefix(s: Seq<char>, prefix: Seq<char>) -> Option<Seq<char>> {
    if has_prefix(s, prefix) {
        Some(s.skip(prefix.len() as int))
    } else {
        None
    }
}

/// Removes `prefix` from the front of `s`, if it is there.
pub fn strip_prefix(s: &str, prefix: &str) -> (r: Option<String>)
    ensures
        r matches Some(rest) ==> after_prefix(s@, prefix@) == Some(rest@),
        r is None ==> after_prefix(s@, prefix@) is None,
{
    let text = chars_of(s);
    let head = chars_of(prefix);
    if text.len() < head.len() {
        return None;
    }
    let mut i: usize = 0;
    while i < head.len()
        invariant
            i <= head@.len() <= text@.len(),
            text@ == s@,
            head@ == prefix@,
            forall|k: int| 0 <= k < i ==> text@[k] == head@[k],
        decreases head@.len() - i,
    {
        if text[i] != head[i] {
            proof {
                assert(s@.take(prefix@.len() as int)[i as int] == s@[i as int]);
            }
            return None;
        }
        i += 1;
    }
    proof {
        assert(s@.take(prefix@.len() as int) =~= prefix@);
        assert(text@.subrange(head@.len() as int, text@.len() as int) =~= s@.skip(
            prefix@.len() as int,
        ));
    }
    Some(text_range(&text, head.len(), text.len()))
}

/// Whether `s` begins with `prefix`.
pub fn starts_with(s: &str, prefix: &str) -> (r: bool)
    ensures
        r == has_prefix(s@, prefix@),
{
    strip_prefix(s, prefix).is_some()
}

/// Whether the character has Unicode's `White_Space` property.
pub open spec fn is_space(c: char) -> bool {
    let n = c as u32;
    ||| 0x09 <= n <= 0x0D
    ||| n == 0x20
    ||| n == 0x85
    ||| n == 0xA0
    ||| n == 0x1680
    ||| 0x2000 <= n <= 0x200A
    ||| n == 0x2028
    ||| n == 0x2029
    ||| n == 0x202F
    ||| n == 0x205F
    ||| n == 0x3000
}

/// Whether the character has Unicode's `White_Space` property.
pub fn char_is_space(c: char) -> (r: bool)
    ensures
        r == is_space(c),
{
    let n: u32 = c as u32;
    (0x09 <= n && n <= 0x0D) || n == 0x20 || n == 0x85 || n == 0xA0 || n == 0x1680 || (0x2000 <= n
        && n <= 0x200A) || n == 0x2028 || n == 0x2029 || n == 0x202F || n == 0x205F || n == 0x3000
}

/// `s` without the whitespace at its front.
pub open spec fn trimmed_front(s: Seq<char>) -> Seq<char>
    decreases s.len(),
{
    if s.len() > 0 && is_space(s[0]) {
        trimmed_front(s.skip(1))
    } else {
        s
    }
}

/// `s` without the whitespace at its end.
pub open spec fn trimmed_back(s: Seq<char>) -> Seq<char>
    decreases s.len(),
{
    if s.len() > 0 && is_space(s.last()) {
        trimmed_back(s.drop_last())
    } else {
        s
    }
}

/// `s` without the whitespace at either end.
pub open spec fn trimmed(s: Seq<char>) -> Seq<char> {
    trimmed_back(trimmed_front(s))
}

/// Removes the whitespace at either end of a text.
pub fn trim(s: &str) -> (r: String)
    ensures
        r@ == trimmed(s@),
{
    let text = chars_of(s);
    let mut from: usize = 0;
    proof {
        assert(text@.skip(0) =~= s@);
    }
    while from < text.len() && char_is_space(text[from])
        invariant
            from <= text@.len(),
            text@ == s@,
            trimmed_front(text@.skip(from as int)) == trimmed_front(s@),
        decreases text@.len() - from,
    {
        proof {
            assert(text@.skip(from as int).skip(1) =~= text@.skip(from + 1));
        }
        from += 1;
    }
    let mut to: usize = text.len();
    proof {
        assert(text@.subrange(from as int, to as int) =~= text@.skip(from as int));
    }
    while to > from && char_is_space(text[to - 1])
        invariant
            from <= to <= text@.len(),
            text@ == s@,
            trimmed_back(text@.subrange(from as int, to as int)) == trimmed(s@),
        decreases to,
    {
        proof {
            assert(text@.subrange(from as int, to as int).drop_last() =~= text@.subrange(
                from as int,
                to - 1,
            ));
        }
        to -= 1;
    }
    text_range(&text, from, to)
}

/// Whether some character of `s` is `c`.
pub fn contains_char(s: &str, c: char) -> (r: bool)
    ensures
        r == s@.contains(c),
{
    let text = chars_of(s);
    let mut i: usize = 0;
    while i < text.len()
        invariant
            i <= text@.len(),
            text@ == s@,
            forall|k: int| 0 <= k < i ==> text@[k] != c,
        decreases text@.len() - i,
    {
        if text[i] == c {
            return true;
        }
        i += 1;
    }
    false
}

/// The texts of a list, as sequences.
pub open spec fn texts(v: Seq<String>) -> Seq<Seq<char>> {
    v.map_values(|s: String| s@)
}

/// Whether `needle` is one of the texts in `list`.
pub fn list_contains(list: &Vec<String>, needle: &str) -> (r: bool)
    ensures
        r == texts(list@).contains(needle@),
{
    let mut i: usize = 0;
    while i < list.len()
        invariant
            i <= list@.len(),
            forall|k: int| 0 <= k < i ==> list@[k]@ != needle@,
        decreases list@.len() - i,
    {
        if same_text(list[i].as_str(), needle) {
            proof {
                assert(texts(list@)[i as int] == needle@);
            }
            return true;
        }
        i += 1;
    }
    proof {
        assert forall|k: int| 0 <= k < texts(list@).len() implies texts(list@)[k] != needle@ by {
            assert(list@[k]@ != needle@);
        }
    }
    false
}

/// The texts joined with `sep` between them.
pub open spec fn joined(parts: Seq<Seq<char>>, sep: Seq<char>) -> Seq<char>
    decreases parts.len(),
{
    if parts.len() == 0 {
        Seq::empty()
    } else if parts.len() == 1 {
        parts[0]
    } else {
        joined(parts.drop_last(), sep) + sep + parts.last()
    }
}

/// Joins the texts with `sep` between them.
pub fn join(parts: &Vec<String>, sep: &str) -> (r: String)
    ensures
        r@ == joined(texts(parts@), sep@),
{
    let mut out = String::new();
    let mut i: usize = 0;
    while i < parts.len()
        invariant
            i <= parts@.len(),
            out@ == joined(texts(parts@).take(i as int), sep@),
        decreases parts@.len() - i,
    {
        proof {
            let t = texts(parts@);
            assert(t.take(i + 1).drop_last() =~= t.take(i as int));
            assert(t.take(i + 1).last() == parts@[i as int]@);
            if i == 0 {
                assert(t.take(0) =~= Seq::empty());
                assert(Seq::<char>::empty() + parts@[0]@ =~= parts@[0]@);
            }
        }
        if i > 0 {
            out.push_str(sep);
        }
        out.push_str(parts[i].as_str());
        i += 1;
    }
    proof {
        assert(texts(parts@).take(parts@.len() as int) =~= texts(parts@));
    }
    out
}

/// Folding to lower case moves the 26 capitals and nothing else; folding twice
/// changes nothing more.
pub proof fn law_lower(s: Seq<char>)
    ensures
        lower(s).len() == s.len(),
        forall|i: int|
            0 <= i < s.len() ==> (#[trigger] lower(s)[i]) as u32 == s[i] as u32 + if 0x41
                <= s[i] as u32 <= 0x5a {
                0x20int
            } else {
                0
            },
        lower(lower(s)) == lower(s),
{
    assert(lower(lower(s)) =~= lower(s));
}

proof fn lemma_trimmed_front(s: Seq<char>)
    ensures
        exists|n: int| 0 <= n <= s.len() && #[trigger] s.skip(n) == trimmed_front(s) && all_space(
            s.take(n),
        ),
        trimmed_front(s).len() > 0 ==> !is_space(trimmed_front(s)[0]),
    decreases s.len(),
{
    if s.len() > 0 && is_space(s[0]) {
        let rest = s.skip(1);
        lemma_trimmed_front(rest);
        let n = choose|n: int|
            0 <= n <= rest.len() && #[trigger] rest.skip(n) == trimmed_front(rest) && all_space(
                rest.take(n),
            );
        assert(s.skip(n + 1) =~= rest.skip(n));
        assert forall|i: int| 0 <= i < s.take(n + 1).len() implies is_space(
            #[trigger] s.take(n + 1)[i],
        ) by {
            if i > 0 {
                assert(is_space(rest.take(n)[i - 1]));
            }
        }
    } else {
        assert(s.skip(0) =~= s);
        assert(all_space(s.take(0)));
    }
}

proof fn lemma_trimmed_back(s: Seq<char>)
    ensures
        exists|n: int| 0 <= n <= s.len() && #[trigger] s.take(n) == trimmed_back(s) && all_space(
            s.skip(n),
        ),
        trimmed_back(s).len() > 0 ==> !is_space(trimmed_back(s).last()),
    decreases s.len(),
{
    if s.len() > 0 && is_space(s.last()) {
        let front = s.drop_last();
        lemma_trimmed_back(front);
        let n = choose|n: int|
            0 <= n <= front.len() && #[trigger] front.take(n) == trimmed_back(front) && all_space(
                front.skip(n),
            );
        assert(s.take(n) =~= front.take(n));
        assert forall|i: int| 0 <= i < s.skip(n).len() implies is_space(
            #[trigger] s.skip(n)[i],
        ) by {
            if i < front.len() - n {
                assert(is_space(front.skip(n)[i]));
            }
        }
    } else {
        assert(s.take(s.len() as int) =~= s);
        assert(all_space(s.skip(s.len() as int)));
    }
}

/// Whether a text is whitespace throughout.
pub open spec fn all_space(s: Seq<char>) -> bool {
    forall|i: int| 0 <= i < s.len() ==> is_space(#[trigger] s[i])
}

/// Trimming takes whitespace off both ends of a text and nothing else, until
/// neither end is whitespace.
pub proof fn law_trimmed(s: Seq<char>)
    ensures
        exists|from: int, to: int|
            0 <= from <= to <= s.len() && #[trigger] s.subrange(from, to) == trimmed(s)
                && all_space(s.take(from)) && all_space(s.skip(to)),
        trimmed(s).len() > 0 ==> !is_space(trimmed(s)[0]) && !is_space(trimmed(s).last()),
{
    lemma_trimmed_front(s);
    let from = choose|n: int|
        0 <= n <= s.len() && #[trigger] s.skip(n) == trimmed_front(s) && all_space(s.take(n));
    let rest = s.skip(from);
    lemma_trimmed_back(rest);
    let n = choose|n: int|
        0 <= n <= rest.len() && #[trigger] rest.take(n) == trimmed_back(rest) && all_space(
            rest.skip(n),
        );
    assert(s.subrange(from, from + n) =~= rest.take(n));
    assert(s.skip(from + n) =~= rest.skip(n));
}

/// The whitespace characters: 25 of them, as Unicode lists them.
pub proof fn law_whitespace(c: char)
    ensures
        is_space(c) <==> seq![
            '\t',
            '\n',
            '\u{b}',
            '\u{c}',
            '\r',
            ' ',
            '\u{85}',
            '\u{a0}',
            '\u{1680}',
            '\u{2000}',
            '\u{2001}',
            '\u{2002}',
            '\u{2003}',
            '\u{2004}',
            '\u{2005}',
            '\u{2006}',
            '\u{2007}',
            '\u{2008}',
            '\u{2009}',
            '\u{200a}',
            '\u{2028}',
            '\u{2029}',
            '\u{202f}',
            '\u{205f}',
            '\u{3000}',
        ].contains(c),
{
    let all = seq![
        '\t',
        '\n',
        '\u{b}',
        '\u{c}',
        '\r',
        ' ',
        '\u{85}',
        '\u{a0}',
        '\u{1680}',
        '\u{2000}',
        '\u{2001}',
        '\u{2002}',
        '\u{2003}',
        '\u{2004}',
        '\u{2005}',
        '\u{2006}',
        '\u{2007}',
        '\u{2008}',
        '\u{2009}',
        '\u{200a}',
        '\u{2028}',
        '\u{2029}',
        '\u{202f}',
        '\u{205f}',
        '\u{3000}',
    ];
    let n = c as u32;
    let i: int = if n <= 0x0d {
        n - 9
    } else if n == 0x20 {
        5
    } else if n == 0x85 {
        6
    } else if n == 0xa0 {
        7
    } else if n == 0x1680 {
        8
    } else if n <= 0x200a {
        n - 0x2000 + 9
    } else if n == 0x2028 {
        20
    } else if n == 0x2029 {
        21
    } else if n == 0x202f {
        22
    } else if n == 0x205f {
        23
    } else {
        24
    };
    if is_space(c) {
        assert(all[i] == c);
    }
}

/// Joining lists of texts one after the other puts the separator between the
/// two, and joins each as it would be alone.
pub proof fn law_joined(a: Seq<Seq<char>>, b: Seq<Seq<char>>, sep: Seq<char>)
    requires
        a.len() > 0,
        b.len() > 0,
    ensures
        joined(a + b, sep) == joined(a, sep) + sep + joined(b, sep),
        a.len() == 1 ==> joined(a, sep) == a[0],
    decreases b.len(),
{
    let all = a + b;
    assert(all.last() == b.last());
    if b.len() == 1 {
        assert(all.drop_last() =~= a);
    } else {
        assert(all.drop_last() =~= a + b.drop_last());
        law_joined(a, b.drop_last(), sep);
        assert(joined(all, sep) =~= joined(a, sep) + sep + joined(b, sep));
    }
}

/// A number is written with digits alone, and one more digit for each factor of
/// ten; the last digit is the remainder.
pub proof fn law_decimal(n: u64, r: String, tenth: String)
    requires
        call_ensures(decimal, (n,), r),
        call_ensures(decimal, ((n / 10) as u64,), tenth),
    ensures
        n < 10 ==> r@.len() == 1,
        n >= 10 ==> r@.drop_last() == tenth@,
        r@.last() as nat == '0' as nat + n % 10,
{
    if n >= 10 {
        assert(r@.drop_last() =~= tenth@);
    }
}

/// A prefix that was stripped and what is left make the text.
pub proof fn law_stripped_prefix(s: &str, prefix: &str, r: Option<String>, begins: bool)
    requires
        call_ensures(strip_prefix, (s, prefix), r),
        call_ensures(starts_with, (s, prefix), begins),
    ensures
        r is Some <==> begins,
        r matches Some(rest) ==> prefix@ + rest@ == s@,
        begins <==> exists|rest: Seq<char>| #[trigger] (prefix@ + rest) == s@,
{
    if r is Some {
        assert(prefix@ + r->0@ =~= s@);
    }
    if exists|rest: Seq<char>| #[trigger] (prefix@ + rest) == s@ {
        let rest = choose|rest: Seq<char>| #[trigger] (prefix@ + rest) == s@;
        assert(s@.take(prefix@.len() as int) =~= prefix@);
    }
}

} // verus!
