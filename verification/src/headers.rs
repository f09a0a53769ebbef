//! HTTP header names, values and header lists.

use vstd::prelude::*;

use crate::error::FilterError;
use crate::text::concat2;
use crate::text::concat4;
use crate::text::lower;
use crate::text::same_text;
use crate::text::to_lower;

verus! {

/// A character that may stand in a header name.
pub open spec fn token_char(c: char) -> bool {
    ||| 'a' <= c <= 'z'
    ||| 'A' <= c <= 'Z'
    ||| '0' <= c <= '9'
    ||| "!#$%&'*+-.^_`|~"@.contains(c)
}

/// A text that names a header.
pub open spec fn valid_name(name: Seq<char>) -> bool {
    &&& 1 <= name.len() <= 65535
    &&& forall|i: int| 0 <= i < name.len() ==> token_char(#[trigger] name[i])
}

/// `http::HeaderName::from_bytes` on the text's bytes: it accepts a non-empty
/// name of at most 65535 token characters and yields it in ASCII lower case.
#[verifier::external_body]
pub(crate) fn parse_header_name(name: &str) -> (r: Option<String>)
    ensures
        r is Some <==> valid_name(name@),
        r matches Some(n) ==> n@ == lower(name@),
{
    http::HeaderName::from_bytes(name.as_bytes()).ok().map(|n| n.as_str().to_owned())
}

/// A character that may stand in a header value.
pub open spec fn value_char(c: char) -> bool {
    (c as u32 >= 32 && c as u32 != 127) || c == '\t'
}

/// A text that can be a header value.
pub open spec fn valid_value(value: Seq<char>) -> bool {
    forall|i: int| 0 <= i < value.len() ==> value_char(#[trigger] value[i])
}

/// `http::HeaderValue::from_str`: it accepts a text without control
/// characters other than the tab; the value then holds the text's bytes.
#[verifier::external_body]
pub(crate) fn parse_header_value(value: &str) -> (r: Option<Vec<u8>>)
    ensures
        r is Some <==> valid_value(value@),
        r matches Some(v) ==> v@ == vstd::utf8::encode_utf8(value@),
{
    http::HeaderValue::from_str(value).ok().map(|v| v.as_bytes().to_vec())
}

/// Whether `name` can be a header name.
pub fn is_valid_name(name: &str) -> (r: bool)
    ensures
        r == valid_name(name@),
{
    parse_header_name(name).is_some()
}

/// Why a configured header name is refused, if it is. `setting` says which one.
pub open spec fn name_error(setting: Seq<char>, name: Seq<char>) -> Option<Seq<char>> {
    if name.len() == 0 {
        Some(setting + " header name must not be empty"@)
    } else if !valid_name(name) {
        Some(setting + " '"@ + name + "' is not a valid HTTP header name"@)
    } else {
        None
    }
}

/// Checks a configured header name.
pub fn validate_header_name(setting: &str, name: &str) -> (r: Result<(), FilterError>)
    ensures
        match name_error(setting@, name@) {
            None => r is Ok,
            Some(m) => r is Err && r->Err_0@ == m,
        },
{
    if name.is_empty() {
        return Err(FilterError::new(concat2(setting, " header name must not be empty")));
    }
    if !is_valid_name(name) {
        return Err(
            FilterError::new(concat4(setting, " '", name, "' is not a valid HTTP header name")),
        );
    }
    Ok(())
}

/// A visible ASCII byte or a tab.
pub open spec fn readable_byte(b: u8) -> bool {
    (32 <= b && b < 127) || b == 9
}

/// The text a header value holds, if every byte of it is readable.
pub open spec fn value_text(value: Seq<u8>) -> Option<Seq<char>> {
    if forall|i: int| 0 <= i < value.len() ==> readable_byte(#[trigger] value[i]) {
        Some(value.map_values(|b: u8| b as char))
    } else {
        None
    }
}

/// The text of an optional header value; an absent or unreadable one has none.
pub open spec fn opt_value_text(value: Option<Seq<u8>>) -> Option<Seq<char>> {
    match value {
        Some(v) => value_text(v),
        None => None,
    }
}

/// The view of an optional text.
pub open spec fn opt_text(t: Option<String>) -> Option<Seq<char>> {
    match t {
        Some(s) => Some(s@),
        None => None,
    }
}

/// Reads a header value as text.
pub fn readable_text(value: &Vec<u8>) -> (r: Option<String>)
    ensures
        opt_text(r) == value_text(value@),
{
    let mut out = String::new();
    let mut i: usize = 0;
    while i < value.len()
        invariant
            i <= value@.len(),
            forall|k: int| 0 <= k < i ==> readable_byte(#[trigger] value@[k]),
            out@ == value@.take(i as int).map_values(|b: u8| b as char),
        decreases value@.len() - i,
    {
        let b: u8 = value[i];
        if !((32 <= b && b < 127) || b == 9) {
            return None;
        }
        out.push(b as char);
        proof {
            assert(value@.take(i + 1).map_values(|b: u8| b as char) =~= value@.take(
                i as int,
            ).map_values(|b: u8| b as char).push(value@[i as int] as char));
        }
        i += 1;
    }
    proof {
        assert(value@.take(value@.len() as int) =~= value@);
    }
    Some(out)
}

/// One header line.
pub struct HeaderLine {
    /// Header name in lower case.
    pub name: String,
    /// Raw header value.
    pub value: Vec<u8>,
}

/// The name and value of a line.
pub open spec fn line_view(l: HeaderLine) -> (Seq<char>, Seq<u8>) {
    (l.name@, l.value@)
}

/// Header lines in order; a name may occur on several lines.
pub struct HeaderMap {
    /// The lines, with names in lower case.
    pub lines: Vec<HeaderLine>,
}

impl View for HeaderMap {
    type V = Seq<(Seq<char>, Seq<u8>)>;

    open spec fn view(&self) -> Seq<(Seq<char>, Seq<u8>)> {
        self.lines@.map_values(|l: HeaderLine| line_view(l))
    }
}

/// The value on the first line with this name.
pub open spec fn first_value(lines: Seq<(Seq<char>, Seq<u8>)>, name: Seq<char>) -> Option<Seq<u8>>
    decreases lines.len(),
{
    if lines.len() == 0 {
        None
    } else if lines[0].0 == name {
        Some(lines[0].1)
    } else {
        first_value(lines.skip(1), name)
    }
}

/// The values of all lines with this name, in order.
pub open spec fn all_values(lines: Seq<(Seq<char>, Seq<u8>)>, name: Seq<char>) -> Seq<Seq<u8>>
    decreases lines.len(),
{
    if lines.len() == 0 {
        Seq::empty()
    } else if lines.last().0 == name {
        all_values(lines.drop_last(), name).push(lines.last().1)
    } else {
        all_values(lines.drop_last(), name)
    }
}

/// The lines whose name differs from `name`, in order.
pub open spec fn without_name(
    lines: Seq<(Seq<char>, Seq<u8>)>,
    name: Seq<char>,
) -> Seq<(Seq<char>, Seq<u8>)>
    decreases lines.len(),
{
    if lines.len() == 0 {
        Seq::empty()
    } else if lines.last().0 == name {
        without_name(lines.drop_last(), name)
    } else {
        without_name(lines.drop_last(), name).push(lines.last())
    }
}

impl HeaderMap {
    /// A list without lines.
    pub fn new() -> (r: HeaderMap)
        ensures
            r@ == Seq::<(Seq<char>, Seq<u8>)>::empty(),
    {
        let r = HeaderMap { lines: Vec::new() };
        proof {
            assert(r@ =~= Seq::empty());
        }
        r
    }

    /// Adds a line at the end; the name is folded to lower case.
    pub fn append(&mut self, name: &str, value: Vec<u8>)
        ensures
            final(self)@ == old(self)@.push((lower(name@), value@)),
    {
        let lowered = to_lower(name);
        self.lines.push(HeaderLine { name: lowered, value });
        proof {
            assert(self@ =~= old(self)@.push((lower(name@), value@)));
        }
    }

    /// The value on the first line whose name is `name`, which is given in
    /// lower case.
    pub fn first(&self, name: &str) -> (r: Option<&Vec<u8>>)
        ensures
            r matches Some(v) ==> first_value(self@, name@) == Some(v@),
            r is None ==> first_value(self@, name@) is None,
    {
        let mut i: usize = 0;
        proof {
            assert(self@.skip(0) =~= self@);
        }
        while i < self.lines.len()
            invariant
                i <= self.lines@.len(),
                first_value(self@.skip(i as int), name@) == first_value(self@, name@),
            decreases self.lines@.len() - i,
        {
            proof {
                assert(self@.skip(i as int)[0] == line_view(self.lines@[i as int]));
                assert(self@.skip(i as int).skip(1) =~= self@.skip(i + 1));
            }
            if same_text(self.lines[i].name.as_str(), name) {
                return Some(&self.lines[i].value);
            }
            i += 1;
        }
        None
    }

    /// The text on the first line whose name is `name`, if it is readable.
    pub fn first_text(&self, name: &str) -> (r: Option<String>)
        ensures
            opt_text(r) == opt_value_text(first_value(self@, name@)),
    {
        match self.first(name) {
            Some(v) => readable_text(v),
            None => None,
        }
    }

    /// A list with the same lines.
    pub fn copied(&self) -> (r: HeaderMap)
        ensures
            r@ == self@,
    {
        let mut out: Vec<HeaderLine> = Vec::new();
        let mut i: usize = 0;
        while i < self.lines.len()
            invariant
                i <= self.lines@.len(),
                out@.len() == i,
                forall|k: int|
                    0 <= k < i ==> line_view(#[trigger] out@[k]) == line_view(self.lines@[k]),
            decreases self.lines@.len() - i,
        {
            out.push(
                HeaderLine {
                    name: self.lines[i].name.clone(),
                    value: clone_bytes(&self.lines[i].value),
                },
            );
            i += 1;
        }
        let r = HeaderMap { lines: out };
        proof {
            assert(r@ =~= self@);
        }
        r
    }

    /// Replaces every line named `name` by one line at the end.
    pub fn insert(&mut self, name: &str, value: Vec<u8>)
        ensures
            final(self)@ == without_name(old(self)@, lower(name@)).push((lower(name@), value@)),
    {
        let name = to_lower(name);
        let mut kept: Vec<HeaderLine> = Vec::new();
        let mut i: usize = 0;
        proof {
            assert(self@.take(0) =~= Seq::empty());
            assert(kept@.map_values(|l: HeaderLine| line_view(l)) =~= Seq::empty());
        }
        while i < self.lines.len()
            invariant
                i <= self.lines@.len(),
                *self == *old(self),
                kept@.map_values(|l: HeaderLine| line_view(l)) == without_name(
                    self@.take(i as int),
                    name@,
                ),
            decreases self.lines@.len() - i,
        {
            proof {
                assert(self@.take(i + 1).drop_last() =~= self@.take(i as int));
                assert(self@.take(i + 1).last() == line_view(self.lines@[i as int]));
            }
            if !same_text(self.lines[i].name.as_str(), name.as_str()) {
                let ghost before = kept@;
                kept.push(
                    HeaderLine {
                        name: self.lines[i].name.clone(),
                        value: clone_bytes(&self.lines[i].value),
                    },
                );
                proof {
                    assert(kept@.map_values(|l: HeaderLine| line_view(l)) =~= before.map_values(
                        |l: HeaderLine| line_view(l),
                    ).push(line_view(self.lines@[i as int])));
                }
            }
            i += 1;
        }
        proof {
            assert(self@.take(self.lines@.len() as int) =~= self@);
        }
        let ghost before = kept@;
        kept.push(HeaderLine { name, value });
        self.lines = kept;
        proof {
            assert(self@ =~= before.map_values(|l: HeaderLine| line_view(l)).push(
                (name@, value@),
            ));
        }
    }
}

/// A copy of the bytes.
pub fn clone_bytes(v: &Vec<u8>) -> (r: Vec<u8>)
    ensures
        r@ == v@,
{
    let mut out: Vec<u8> = Vec::new();
    out.extend_from_slice(v.as_slice());
    proof {
        assert(out@ =~= v@);
    }
    out
}

/// Of several lines with a name the first counts.
pub proof fn law_first_line_counts(lines: Seq<(Seq<char>, Seq<u8>)>, name: Seq<char>, i: int)
    requires
        0 <= i < lines.len(),
        lines[i].0 == name,
        forall|j: int| 0 <= j < i ==> (#[trigger] lines[j]).0 != name,
    ensures
        first_value(lines, name) == Some(lines[i].1),
    decreases lines.len(),
{
    if i > 0 {
        assert(lines[0].0 != name);
        let rest = lines.skip(1);
        assert forall|j: int| 0 <= j < i - 1 implies (#[trigger] rest[j]).0 != name by {
            assert(rest[j] == lines[j + 1]);
        }
        law_first_line_counts(rest, name, i - 1);
    }
}

/// A header without a line has no value.
pub proof fn law_absent_header(lines: Seq<(Seq<char>, Seq<u8>)>, name: Seq<char>)
    requires
        forall|j: int| 0 <= j < lines.len() ==> (#[trigger] lines[j]).0 != name,
    ensures
        first_value(lines, name) is None,
        all_values(lines, name).len() == 0,
        without_name(lines, name) == lines,
    decreases lines.len(),
{
    law_lines_by_name(lines, name);
    let named = |l: (Seq<char>, Seq<u8>)| l.0 == name;
    let other = |l: (Seq<char>, Seq<u8>)| l.0 != name;
    lemma_keep_all(lines, other);
    lemma_keep_none(lines, named);
    if lines.len() > 0 {
        assert(lines[0].0 != name);
        let rest = lines.skip(1);
        assert forall|j: int| 0 <= j < rest.len() implies (#[trigger] rest[j]).0 != name by {
            assert(rest[j] == lines[j + 1]);
        }
        law_absent_header(rest, name);
    }
}

/// Lines that are all to be kept stay as they are.
pub proof fn lemma_keep_all(
    lines: Seq<(Seq<char>, Seq<u8>)>,
    keep: spec_fn((Seq<char>, Seq<u8>)) -> bool,
)
    requires
        forall|i: int| 0 <= i < lines.len() ==> keep(#[trigger] lines[i]),
    ensures
        lines.filter(keep) == lines,
    decreases lines.len(),
{
    reveal(Seq::filter);
    if lines.len() > 0 {
        assert(keep(lines[lines.len() - 1]));
        lemma_keep_all(lines.drop_last(), keep);
        assert(lines.drop_last().push(lines.last()) =~= lines);
    }
}

proof fn lemma_keep_none(
    lines: Seq<(Seq<char>, Seq<u8>)>,
    keep: spec_fn((Seq<char>, Seq<u8>)) -> bool,
)
    requires
        forall|i: int| 0 <= i < lines.len() ==> !keep(#[trigger] lines[i]),
    ensures
        lines.filter(keep).len() == 0,
    decreases lines.len(),
{
    reveal(Seq::filter);
    if lines.len() > 0 {
        assert(!keep(lines[lines.len() - 1]));
        lemma_keep_none(lines.drop_last(), keep);
    }
}

/// Reading all lines with a name, or all lines without it, keeps exactly those,
/// in order.
pub proof fn law_lines_by_name(lines: Seq<(Seq<char>, Seq<u8>)>, name: Seq<char>)
    ensures
        all_values(lines, name) == lines.filter(
            |l: (Seq<char>, Seq<u8>)| l.0 == name,
        ).map_values(|l: (Seq<char>, Seq<u8>)| l.1),
        without_name(lines, name) == lines.filter(|l: (Seq<char>, Seq<u8>)| l.0 != name),
    decreases lines.len(),
{
    reveal(Seq::filter);
    let named = |l: (Seq<char>, Seq<u8>)| l.0 == name;
    let value = |l: (Seq<char>, Seq<u8>)| l.1;
    if lines.len() > 0 {
        law_lines_by_name(lines.drop_last(), name);
        let front = lines.drop_last().filter(named);
        assert(front.push(lines.last()).map_values(value) =~= front.map_values(value).push(
            lines.last().1,
        ));
    } else {
        assert(lines.filter(named).map_values(value) =~= Seq::empty());
    }
}

/// A replaced header has the new value and no other; every other header keeps
/// its lines, in order.
pub proof fn law_replaced_header(
    lines: Seq<(Seq<char>, Seq<u8>)>,
    name: Seq<char>,
    value: Seq<u8>,
    other: Seq<char>,
)
    requires
        other != name,
    ensures
        all_values(without_name(lines, name).push((name, value)), name) == seq![value],
        all_values(without_name(lines, name).push((name, value)), other) == all_values(
            lines,
            other,
        ),
    decreases lines.len(),
{
    let kept = without_name(lines, name);
    let out = kept.push((name, value));
    assert(out.drop_last() =~= kept);
    if lines.len() > 0 {
        let before = without_name(lines.drop_last(), name);
        law_replaced_header(lines.drop_last(), name, value, other);
        assert(before.push((name, value)).drop_last() =~= before);
        assert(before.push(lines.last()).drop_last() =~= before);
        assert(all_values(before, name).len() == 0) by {
            let all = all_values(before.push((name, value)), name);
            assert(all == all_values(before, name).push(value));
        }
        assert(all_values(kept, name).len() == 0);
        assert(all_values(kept, other) == all_values(lines, other));
    } else {
        assert(kept =~= Seq::empty());
        assert(all_values(kept, name).len() == 0);
        assert(all_values(kept, other) == all_values(lines, other));
    }
    assert(all_values(out, name) == all_values(kept, name).push(value));
    assert(all_values(out, other) == all_values(kept, other));
    assert(all_values(out, name) =~= seq![value]);
}

/// A header value is readable exactly where each of its bytes is a visible ASCII
/// character, a space or a tab, and then it reads as these characters.
pub proof fn law_readable_values(value: Seq<u8>)
    ensures
        value_text(value) is Some <==> forall|i: int|
            0 <= i < value.len() ==> (#[trigger] value[i] == 9 || 0x20 <= value[i] <= 0x7e),
        value_text(value) matches Some(t) ==> t.len() == value.len() && forall|i: int|
            0 <= i < value.len() ==> (#[trigger] t[i]) as u32 == value[i],
{
    if value_text(value) is Some {
        assert forall|i: int| 0 <= i < value.len() implies (#[trigger] value[i] == 9 || 0x20
            <= value[i] <= 0x7e) by {
            assert(readable_byte(value[i]));
        }
    }
}

/// The characters of a header name: letters, digits and the marks of an HTTP
/// token.
pub proof fn law_token_chars(c: char)
    ensures
        token_char(c) <==> {
            ||| 0x30 <= c as u32 <= 0x39
            ||| 0x41 <= c as u32 <= 0x5a
            ||| 0x61 <= c as u32 <= 0x7a
            ||| seq![
                '!',
                '#',
                '$',
                '%',
                '&',
                '\'',
                '*',
                '+',
                '-',
                '.',
                '^',
                '_',
                '`',
                '|',
                '~',
            ].contains(c)
        },
{
    reveal_strlit("!#$%&'*+-.^_`|~");
    assert("!#$%&'*+-.^_`|~"@ =~= seq![
        '!',
        '#',
        '$',
        '%',
        '&',
        '\'',
        '*',
        '+',
        '-',
        '.',
        '^',
        '_',
        '`',
        '|',
        '~',
    ]);
}

/// A configured header name is accepted exactly where it can be a header name;
/// an empty one is refused as such, any other by its text.
pub proof fn law_name_refusals(setting: Seq<char>, name: Seq<char>)
    ensures
        name_error(setting, name) is None <==> valid_name(name),
        name.len() == 0 ==> name_error(setting, name) == Some(
            setting + " header name must not be empty"@,
        ),
        name.len() > 0 && !valid_name(name) ==> name_error(setting, name) == Some(
            setting + " '"@ + name + "' is not a valid HTTP header name"@,
        ),
{
}

/// A text can be a header value exactly where it holds no control character but
/// the tab.
pub proof fn law_value_chars(c: char)
    ensures
        value_char(c) <==> c == '\t' || !(c <= '\u{1f}' || c == '\u{7f}'),
{
}

/// A header that was replaced reads back as the new value, whatever lines it had;
/// a line that was appended reads back where the header had none.
pub proof fn law_header_read_back(
    map: &mut HeaderMap,
    name: &str,
    value: Vec<u8>,
    then: HeaderMap,
    looked_up: &str,
    r: Option<&Vec<u8>>,
)
    requires
        call_ensures(HeaderMap::insert, (map, name, value), ()),
        then == *final(map),
        looked_up@ == lower(name@),
        call_ensures(HeaderMap::first, (&then, looked_up), r),
    ensures
        r is Some,
        r->0@ == value@,
{
    let kept = without_name(old(map)@, lower(name@));
    lemma_none_left(old(map)@, lower(name@));
    let all = final(map)@;
    assert forall|j: int| 0 <= j < kept.len() implies (#[trigger] all[j]).0 != lower(name@) by {
        assert(all[j] == kept[j]);
    }
    law_first_line_counts(all, lower(name@), kept.len() as int);
}

proof fn lemma_none_left(lines: Seq<(Seq<char>, Seq<u8>)>, name: Seq<char>)
    ensures
        forall|i: int|
            0 <= i < without_name(lines, name).len() ==> (#[trigger] without_name(
                lines,
                name,
            )[i]).0 != name,
    decreases lines.len(),
{
    if lines.len() > 0 {
        let front = without_name(lines.drop_last(), name);
        lemma_none_left(lines.drop_last(), name);
        assert forall|i: int| 0 <= i < without_name(lines, name).len() implies (
        #[trigger] without_name(lines, name)[i]).0 != name by {
            if i < front.len() {
                assert(without_name(lines, name)[i] == front[i]);
            }
        }
    }
}

} // verus!
