//! Delegated credentials: which minted tokens go upstream, and which inbound
//! credentials are stripped.

use vstd::prelude::*;

use crate::headers::parse_header_name;
use crate::headers::valid_name;
use crate::headers::valid_value;
use crate::sorted_map::lemma_less_irreflexive;
use crate::sorted_map::lemma_less_total;
use crate::sorted_map::lemma_less_transitive;
use crate::sorted_map::text_before;
use crate::sorted_map::text_less;
use crate::text::concat2;
use crate::text::lower;
use crate::text::same_text;
use crate::text::texts;
use crate::text::to_lower;

verus! {

/// A token minted for one audience.
pub struct DelegatedToken {
    /// Header that carries it upstream.
    pub outbound_header: String,
    /// Audience it was minted for.
    pub audience: String,
    /// The token.
    pub token: String,
}

/// Credentials that a policy evaluation produced.
pub struct RawCredentials {
    /// Minted tokens.
    pub delegated: Vec<DelegatedToken>,
    /// Headers that carried the inbound credentials.
    pub inbound: Vec<String>,
}

/// Changes to the upstream request's headers.
pub struct HeaderPlan {
    /// Headers to set, each overwriting what the request carries.
    pub set: Vec<(String, Vec<u8>)>,
    /// Headers to remove.
    pub remove: Vec<String>,
}

/// A minted token, as a value.
pub ghost struct TokenView {
    /// Outbound header.
    pub header: Seq<char>,
    /// Audience.
    pub audience: Seq<char>,
    /// Token.
    pub token: Seq<char>,
}

impl View for DelegatedToken {
    type V = TokenView;

    open spec fn view(&self) -> TokenView {
        TokenView {
            header: self.outbound_header@,
            audience: self.audience@,
            token: self.token@,
        }
    }
}

/// The tokens, as values.
pub open spec fn token_views(tokens: Seq<DelegatedToken>) -> Seq<TokenView> {
    tokens.map_values(|t: DelegatedToken| t@)
}

/// The headers of a plan that are set, as values.
pub open spec fn set_view(set: Seq<(String, Vec<u8>)>) -> Seq<(Seq<char>, Seq<u8>)> {
    set.map_values(|p: (String, Vec<u8>)| (p.0@, p.1@))
}

/// Whether a token comes before another: by outbound header, whatever its
/// case, then by audience.
pub open spec fn token_less(a: TokenView, b: TokenView) -> bool {
    text_less(lower(a.header), lower(b.header)) || (lower(a.header) == lower(b.header)
        && text_less(a.audience, b.audience))
}

/// The ordered tokens with `t` placed after all that do not come after it.
pub open spec fn insert_token(sorted: Seq<TokenView>, t: TokenView) -> Seq<TokenView>
    decreases sorted.len(),
{
    if sorted.len() == 0 || !token_less(t, sorted.last()) {
        sorted.push(t)
    } else {
        insert_token(sorted.drop_last(), t).push(sorted.last())
    }
}

/// The tokens in order; equal ones keep their places.
pub open spec fn ordered(tokens: Seq<TokenView>) -> Seq<TokenView>
    decreases tokens.len(),
{
    if tokens.len() == 0 {
        Seq::empty()
    } else {
        insert_token(ordered(tokens.drop_last()), tokens.last())
    }
}

/// What goes on the wire for a token.
pub open spec fn bearer(token: Seq<char>) -> Seq<char> {
    "Bearer "@ + token
}

/// Whether a token can be sent: its header name and its value are valid.
pub open spec fn usable(t: TokenView) -> bool {
    valid_name(t.header) && valid_value(bearer(t.token))
}

/// Whether one of the tokens targets this header, given in lower case.
pub open spec fn targets(tokens: Seq<TokenView>, header: Seq<char>) -> bool {
    exists|i: int| 0 <= i < tokens.len() && lower((#[trigger] tokens[i]).header) == header
}

/// The tokens that are attached: each usable one whose header no earlier
/// attached one targets.
pub open spec fn attached(sorted: Seq<TokenView>) -> Seq<TokenView>
    decreases sorted.len(),
{
    if sorted.len() == 0 {
        Seq::empty()
    } else {
        let before = attached(sorted.drop_last());
        let t = sorted.last();
        if usable(t) && !targets(before, lower(t.header)) {
            before.push(t)
        } else {
            before
        }
    }
}

/// The header that carries a token.
pub open spec fn token_header(t: TokenView) -> (Seq<char>, Seq<u8>) {
    (lower(t.header), vstd::utf8::encode_utf8(bearer(t.token)))
}

/// The inbound headers that are stripped: those with a valid name that no
/// attached token overwrites.
pub open spec fn stripped(inbound: Seq<Seq<char>>, tokens: Seq<TokenView>) -> Seq<Seq<char>>
    decreases inbound.len(),
{
    if inbound.len() == 0 {
        Seq::empty()
    } else {
        let before = stripped(inbound.drop_last(), tokens);
        let h = inbound.last();
        if valid_name(h) && !targets(tokens, lower(h)) {
            before.push(lower(h))
        } else {
            before
        }
    }
}

/// `http::HeaderValue::try_from` on a text in a buffer that
/// `zeroize::Zeroizing` wipes: it accepts what can be a header value, and the
/// value holds the text's bytes.
#[verifier::external_body]
fn wiped_header_value(text: String) -> (r: Option<Vec<u8>>)
    ensures
        r is Some <==> valid_value(text@),
        r matches Some(v) ==> v@ == vstd::utf8::encode_utf8(text@),
{
    let text = zeroize::Zeroizing::new(text);
    http::HeaderValue::try_from(text.as_str()).ok().map(|v| v.as_bytes().to_vec())
}

/// The header value that carries a token, if it can be one. The text it is made
/// of is wiped.
fn bearer_value(token: &str) -> (r: Option<Vec<u8>>)
    ensures
        r is Some <==> valid_value(bearer(token@)),
        r matches Some(v) ==> v@ == vstd::utf8::encode_utf8(bearer(token@)),
{
    wiped_header_value(concat2("Bearer ", token))
}

fn token_before(a: &DelegatedToken, b: &DelegatedToken) -> (r: bool)
    ensures
        r == token_less(a@, b@),
{
    let x = to_lower(a.outbound_header.as_str());
    let y = to_lower(b.outbound_header.as_str());
    text_before(x.as_str(), y.as_str()) || (same_text(x.as_str(), y.as_str()) && text_before(
        a.audience.as_str(),
        b.audience.as_str(),
    ))
}

/// The tokens at these places.
spec fn picked(tokens: Seq<DelegatedToken>, order: Seq<usize>) -> Seq<TokenView> {
    order.map_values(|i: usize| tokens[i as int]@)
}

proof fn lemma_insert_at(s: Seq<TokenView>, t: TokenView, p: int)
    requires
        0 <= p <= s.len(),
        forall|q: int| p <= q < s.len() ==> token_less(t, #[trigger] s[q]),
        p == 0 || !token_less(t, s[p - 1]),
    ensures
        insert_token(s, t) == s.insert(p, t),
    decreases s.len(),
{
    if s.len() == 0 || !token_less(t, s.last()) {
        assert(p == s.len());
        assert(s.insert(p, t) =~= s.push(t));
    } else {
        assert(p < s.len());
        let front = s.drop_last();
        lemma_insert_at(front, t, p);
        assert(s.insert(p, t) =~= front.insert(p, t).push(s.last()));
    }
}

/// The places of the tokens, in order.
fn token_order(tokens: &Vec<DelegatedToken>) -> (r: Vec<usize>)
    ensures
        forall|i: int| 0 <= i < r@.len() ==> #[trigger] r@[i] < tokens@.len(),
        picked(tokens@, r@) == ordered(token_views(tokens@)),
{
    let ghost views = token_views(tokens@);
    let mut order: Vec<usize> = Vec::new();
    let mut n: usize = 0;
    proof {
        assert(views.take(0) =~= Seq::empty());
        assert(picked(tokens@, order@) =~= Seq::empty());
    }
    while n < tokens.len()
        invariant
            views == token_views(tokens@),
            n <= tokens@.len(),
            forall|i: int| 0 <= i < order@.len() ==> #[trigger] order@[i] < tokens@.len(),
            picked(tokens@, order@) == ordered(views.take(n as int)),
        decreases tokens@.len() - n,
    {
        let ghost s = picked(tokens@, order@);
        let mut p: usize = order.len();
        while p > 0 && token_before(&tokens[n], &tokens[order[p - 1]])
            invariant
                n < tokens@.len(),
                p <= order@.len(),
                s == picked(tokens@, order@),
                forall|i: int| 0 <= i < order@.len() ==> #[trigger] order@[i] < tokens@.len(),
                forall|q: int|
                    p <= q < s.len() ==> token_less(tokens@[n as int]@, #[trigger] s[q]),
            decreases p,
        {
            p -= 1;
        }
        proof {
            lemma_insert_at(s, tokens@[n as int]@, p as int);
            assert(views.take(n + 1).drop_last() =~= views.take(n as int));
            assert(views.take(n + 1).last() == tokens@[n as int]@);
        }
        order.insert(p, n);
        proof {
            assert(picked(tokens@, order@) =~= s.insert(p as int, tokens@[n as int]@));
        }
        n += 1;
    }
    proof {
        assert(views.take(views.len() as int) =~= views);
    }
    order
}

/// Attaches minted tokens to the upstream request and strips the inbound
/// credentials they replace. Answers how many tokens were attached. Where two
/// tokens target one header, the one with the lower audience goes.
pub fn attach_delegated_tokens(plan: &mut HeaderPlan, credentials: Option<&RawCredentials>) -> (r:
    usize)
    ensures
        credentials is None ==> r == 0 && *final(plan) == *old(plan),
        credentials matches Some(raw) ==> {
            let chosen = attached(ordered(token_views(raw.delegated@)));
            &&& r == chosen.len()
            &&& set_view(final(plan).set@) == set_view(old(plan).set@) + chosen.map_values(
                |t: TokenView| token_header(t),
            )
            &&& texts(final(plan).remove@) == texts(old(plan).remove@) + if chosen.len() > 0 {
                stripped(texts(raw.inbound@), chosen)
            } else {
                Seq::empty()
            }
        },
{
    let raw = match credentials {
        Some(raw) => raw,
        None => {
            return 0;
        },
    };
    let order = token_order(&raw.delegated);
    let tokens = &raw.delegated;
    let ghost sorted = picked(tokens@, order@);
    let ghost head = |t: TokenView| token_header(t);
    let mut targeted: Vec<String> = Vec::new();
    let mut count: usize = 0;
    let mut i: usize = 0;
    proof {
        assert(sorted.take(0) =~= Seq::empty());
        assert(set_view(plan.set@) =~= set_view(old(plan).set@) + attached(
            sorted.take(0),
        ).map_values(head));
        assert(texts(targeted@) =~= attached(sorted.take(0)).map_values(
            |t: TokenView| lower(t.header),
        ));
    }
    while i < order.len()
        invariant
            tokens == raw.delegated,
            sorted == picked(tokens@, order@),
            head == (|t: TokenView| token_header(t)),
            i <= order@.len(),
            forall|k: int| 0 <= k < order@.len() ==> #[trigger] order@[k] < tokens@.len(),
            count == attached(sorted.take(i as int)).len(),
            count <= i,
            plan.remove == old(plan).remove,
            set_view(plan.set@) == set_view(old(plan).set@) + attached(
                sorted.take(i as int),
            ).map_values(head),
            texts(targeted@) == attached(sorted.take(i as int)).map_values(
                |t: TokenView| lower(t.header),
            ),
        decreases order@.len() - i,
    {
        let tok = &tokens[order[i]];
        let ghost before = attached(sorted.take(i as int));
        proof {
            assert(sorted.take(i + 1).drop_last() =~= sorted.take(i as int));
            assert(sorted.take(i + 1).last() == tok@);
        }
        let outbound = to_lower(tok.outbound_header.as_str());
        let taken = is_targeted(&targeted, outbound.as_str(), Ghost(before));
        if !taken {
            if let Some(name) = parse_header_name(tok.outbound_header.as_str()) {
                if let Some(value) = bearer_value(tok.token.as_str()) {
                    let ghost set_before = plan.set@;
                    let ghost targeted_before = targeted@;
                    plan.set.push((name, value));
                    targeted.push(outbound);
                    count += 1;
                    proof {
                        assert(set_view(plan.set@) =~= set_view(set_before).push(
                            token_header(tok@),
                        ));
                        assert(before.push(tok@).map_values(head) =~= before.map_values(head).push(
                            token_header(tok@),
                        ));
                        assert(set_view(plan.set@) =~= set_view(old(plan).set@) + before.push(
                            tok@,
                        ).map_values(head));
                        assert(texts(targeted@) =~= texts(targeted_before).push(outbound@));
                        assert(before.push(tok@).map_values(|t: TokenView| lower(t.header))
                            =~= before.map_values(|t: TokenView| lower(t.header)).push(
                            outbound@,
                        ));
                    }
                }
            }
        }
        i += 1;
    }
    proof {
        assert(sorted.take(order@.len() as int) =~= sorted);
    }
    if count > 0 {
        strip_inbound(plan, &raw.inbound, &targeted, Ghost(attached(sorted)));
    } else {
        proof {
            assert(texts(old(plan).remove@) + Seq::<Seq<char>>::empty() =~= texts(
                old(plan).remove@,
            ));
        }
    }
    count
}

/// Whether a header is among those that the attached tokens target.
fn is_targeted(targeted: &Vec<String>, header: &str, Ghost(chosen): Ghost<Seq<TokenView>>) -> (r:
    bool)
    requires
        texts(targeted@) == chosen.map_values(|t: TokenView| lower(t.header)),
    ensures
        r == targets(chosen, header@),
{
    let r = crate::text::list_contains(targeted, header);
    proof {
        let names = chosen.map_values(|t: TokenView| lower(t.header));
        if r {
            let i = choose|i: int| 0 <= i < names.len() && names[i] == header@;
            assert(lower(chosen[i].header) == header@);
        } else if targets(chosen, header@) {
            let i = choose|i: int|
                0 <= i < chosen.len() && lower((#[trigger] chosen[i]).header) == header@;
            assert(names[i] == header@);
        }
    }
    r
}

fn strip_inbound(
    plan: &mut HeaderPlan,
    inbound: &Vec<String>,
    targeted: &Vec<String>,
    Ghost(chosen): Ghost<Seq<TokenView>>,
)
    requires
        texts(targeted@) == chosen.map_values(|t: TokenView| lower(t.header)),
    ensures
        final(plan).set == old(plan).set,
        texts(final(plan).remove@) == texts(old(plan).remove@) + stripped(texts(inbound@), chosen),
{
    let ghost names = texts(inbound@);
    let mut i: usize = 0;
    proof {
        assert(names.take(0) =~= Seq::empty());
        assert(texts(plan.remove@) =~= texts(old(plan).remove@) + stripped(names.take(0), chosen));
    }
    while i < inbound.len()
        invariant
            names == texts(inbound@),
            i <= inbound@.len(),
            plan.set == old(plan).set,
            texts(targeted@) == chosen.map_values(|t: TokenView| lower(t.header)),
            texts(plan.remove@) == texts(old(plan).remove@) + stripped(
                names.take(i as int),
                chosen,
            ),
        decreases inbound@.len() - i,
    {
        let source = &inbound[i];
        proof {
            assert(names.take(i + 1).drop_last() =~= names.take(i as int));
            assert(names.take(i + 1).last() == source@);
        }
        let normalized = to_lower(source.as_str());
        if !is_targeted(targeted, normalized.as_str(), Ghost(chosen)) {
            if let Some(name) = parse_header_name(source.as_str()) {
                let ghost before = plan.remove@;
                plan.remove.push(name);
                proof {
                    assert(texts(plan.remove@) =~= texts(before).push(name@));
                    assert(texts(plan.remove@) =~= texts(old(plan).remove@) + stripped(
                        names.take(i as int),
                        chosen,
                    ).push(name@));
                }
            }
        }
        i += 1;
    }
    proof {
        assert(names.take(names.len() as int) =~= names);
    }
}

// What the choice guarantees.

proof fn lemma_insert_members(s: Seq<TokenView>, t: TokenView)
    ensures
        insert_token(s, t).len() == s.len() + 1,
        forall|x: TokenView| #[trigger]
            insert_token(s, t).contains(x) <==> s.contains(x) || x == t,
    decreases s.len(),
{
    let r = insert_token(s, t);
    if s.len() == 0 || !token_less(t, s.last()) {
        assert forall|x: TokenView| #[trigger] r.contains(x) <==> s.contains(x) || x == t by {
            if s.contains(x) {
                let i = choose|i: int| 0 <= i < s.len() && s[i] == x;
                assert(r[i] == x);
            }
            if x == t {
                assert(r[s.len() as int] == t);
            }
        }
    } else {
        let front = s.drop_last();
        let inner = insert_token(front, t);
        lemma_insert_members(front, t);
        assert forall|x: TokenView| #[trigger] r.contains(x) <==> s.contains(x) || x == t by {
            if r.contains(x) {
                let i = choose|i: int| 0 <= i < r.len() && r[i] == x;
                if i < inner.len() {
                    assert(inner.contains(x));
                    if front.contains(x) {
                        let j = choose|j: int| 0 <= j < front.len() && front[j] == x;
                        assert(s[j] == x);
                    }
                } else {
                    assert(s[s.len() - 1] == x);
                }
            }
            if s.contains(x) || x == t {
                if x == s.last() {
                    assert(r[inner.len() as int] == x);
                } else {
                    if s.contains(x) {
                        let j = choose|j: int| 0 <= j < s.len() && s[j] == x;
                        assert(front[j] == x);
                    }
                    assert(inner.contains(x));
                    let i = choose|i: int| 0 <= i < inner.len() && inner[i] == x;
                    assert(r[i] == x);
                }
            }
        }
    }
}

proof fn lemma_ordered_members(tokens: Seq<TokenView>)
    ensures
        ordered(tokens).len() == tokens.len(),
        forall|x: TokenView| #[trigger] ordered(tokens).contains(x) <==> tokens.contains(x),
    decreases tokens.len(),
{
    if tokens.len() > 0 {
        let front = tokens.drop_last();
        lemma_ordered_members(front);
        lemma_insert_members(ordered(front), tokens.last());
        assert forall|x: TokenView| #[trigger]
            ordered(tokens).contains(x) <==> tokens.contains(x) by {
            if tokens.contains(x) {
                let i = choose|i: int| 0 <= i < tokens.len() && tokens[i] == x;
                if i < front.len() {
                    assert(front[i] == x);
                }
            }
            if front.contains(x) {
                let i = choose|i: int| 0 <= i < front.len() && front[i] == x;
                assert(tokens[i] == x);
            }
            if x == tokens.last() {
                assert(tokens[tokens.len() - 1] == x);
            }
        }
    }
}

/// Whether no token comes before one that stands earlier.
spec fn in_order(s: Seq<TokenView>) -> bool {
    forall|i: int, j: int| 0 <= i < j < s.len() ==> !token_less(#[trigger] s[j], #[trigger] s[i])
}

proof fn lemma_token_less_transitive(a: TokenView, b: TokenView, c: TokenView)
    requires
        token_less(a, b),
        token_less(b, c),
    ensures
        token_less(a, c),
{
    if text_less(lower(a.header), lower(b.header)) && text_less(lower(b.header), lower(c.header)) {
        lemma_less_transitive(lower(a.header), lower(b.header), lower(c.header));
    } else if lower(a.header) == lower(b.header) && lower(b.header) == lower(c.header) {
        lemma_less_transitive(a.audience, b.audience, c.audience);
    }
}

proof fn lemma_token_less_asymmetric(a: TokenView, b: TokenView)
    requires
        token_less(a, b),
    ensures
        !token_less(b, a),
{
    if token_less(b, a) {
        lemma_token_less_transitive(a, b, a);
        lemma_less_irreflexive(lower(a.header));
        lemma_less_irreflexive(a.audience);
    }
}

proof fn lemma_insert_in_order(s: Seq<TokenView>, t: TokenView)
    requires
        in_order(s),
    ensures
        in_order(insert_token(s, t)),
    decreases s.len(),
{
    let r = insert_token(s, t);
    if s.len() == 0 {
    } else if !token_less(t, s.last()) {
        assert forall|i: int, j: int| 0 <= i < j < r.len() implies !token_less(
            #[trigger] r[j],
            #[trigger] r[i],
        ) by {
            if j == s.len() {
                if i < s.len() - 1 && token_less(t, s[i]) {
                    assert(!token_less(s[s.len() - 1], s[i]));
                    lemma_not_less_chain(t, s[i], s.last());
                }
            } else {
                assert(r[j] == s[j] && r[i] == s[i]);
            }
        }
    } else {
        let front = s.drop_last();
        assert(in_order(front)) by {
            assert forall|i: int, j: int| 0 <= i < j < front.len() implies !token_less(
                #[trigger] front[j],
                #[trigger] front[i],
            ) by {
                assert(front[j] == s[j] && front[i] == s[i]);
            }
        }
        lemma_insert_in_order(front, t);
        lemma_insert_members(front, t);
        let inner = insert_token(front, t);
        assert forall|i: int, j: int| 0 <= i < j < r.len() implies !token_less(
            #[trigger] r[j],
            #[trigger] r[i],
        ) by {
            if j == inner.len() {
                assert(inner.contains(inner[i]));
                if inner[i] == t {
                    lemma_token_less_asymmetric(t, s.last());
                } else {
                    assert(front.contains(inner[i]));
                    let k = choose|k: int| 0 <= k < front.len() && front[k] == inner[i];
                    assert(!token_less(s[s.len() - 1], s[k]));
                }
                assert(r[i] == inner[i]);
            } else {
                assert(r[j] == inner[j] && r[i] == inner[i]);
            }
        }
    }
}

/// If `a` comes before `b` and `c` does not, `a` comes before `c`.
proof fn lemma_not_less_chain(a: TokenView, b: TokenView, c: TokenView)
    requires
        token_less(a, b),
        !token_less(c, b),
    ensures
        token_less(a, c),
{
    lemma_less_total(lower(b.header), lower(c.header));
    lemma_less_total(b.audience, c.audience);
    if text_less(lower(b.header), lower(c.header)) || (lower(b.header) == lower(c.header)
        && text_less(b.audience, c.audience)) {
        lemma_token_less_transitive(a, b, c);
    }
}

proof fn lemma_ordered_in_order(tokens: Seq<TokenView>)
    ensures
        in_order(ordered(tokens)),
    decreases tokens.len(),
{
    if tokens.len() > 0 {
        lemma_ordered_in_order(tokens.drop_last());
        lemma_insert_in_order(ordered(tokens.drop_last()), tokens.last());
    }
}

proof fn lemma_attached_members(sorted: Seq<TokenView>)
    ensures
        forall|i: int|
            0 <= i < attached(sorted).len() ==> usable(#[trigger] attached(sorted)[i])
                && sorted.contains(attached(sorted)[i]),
        forall|i: int, j: int|
            0 <= i < j < attached(sorted).len() ==> lower((#[trigger] attached(sorted)[i]).header)
                != lower((#[trigger] attached(sorted)[j]).header),
    decreases sorted.len(),
{
    if sorted.len() > 0 {
        let front = sorted.drop_last();
        lemma_attached_members(front);
        let before = attached(front);
        let all = attached(sorted);
        assert forall|i: int| 0 <= i < all.len() implies usable(#[trigger] all[i])
            && sorted.contains(all[i]) by {
            if i < before.len() {
                assert(all[i] == before[i]);
                let k = choose|k: int| 0 <= k < front.len() && front[k] == before[i];
                assert(sorted[k] == all[i]);
            } else {
                assert(sorted[sorted.len() - 1] == all[i]);
            }
        }
        assert forall|i: int, j: int| 0 <= i < j < all.len() implies lower(
            (#[trigger] all[i]).header,
        ) != lower((#[trigger] all[j]).header) by {
            assert(all[i] == before[i]);
            if j < before.len() {
                assert(all[j] == before[j]);
            }
        }
    }
}

/// No two attached tokens share a header, and every attached token is one of
/// those minted and can be sent.
pub proof fn law_one_token_per_header(tokens: Seq<TokenView>)
    ensures
        forall|i: int, j: int|
            0 <= i < j < attached(ordered(tokens)).len() ==> lower(
                (#[trigger] attached(ordered(tokens))[i]).header,
            ) != lower((#[trigger] attached(ordered(tokens))[j]).header),
        forall|i: int|
            0 <= i < attached(ordered(tokens)).len() ==> usable(
                #[trigger] attached(ordered(tokens))[i],
            ) && tokens.contains(attached(ordered(tokens))[i]),
{
    lemma_ordered_members(tokens);
    lemma_attached_members(ordered(tokens));
}

proof fn lemma_attached_covers(sorted: Seq<TokenView>, k: int)
    requires
        in_order(sorted),
        0 <= k < sorted.len(),
        usable(sorted[k]),
    ensures
        exists|i: int|
            0 <= i < attached(sorted).len() && lower((#[trigger] attached(sorted)[i]).header)
                == lower(sorted[k].header) && !text_less(
                sorted[k].audience,
                attached(sorted)[i].audience,
            ),
    decreases sorted.len(),
{
    let front = sorted.drop_last();
    let before = attached(front);
    let all = attached(sorted);
    assert(in_order(front)) by {
        assert forall|i: int, j: int| 0 <= i < j < front.len() implies !token_less(
            #[trigger] front[j],
            #[trigger] front[i],
        ) by {
            assert(front[j] == sorted[j] && front[i] == sorted[i]);
        }
    }
    if k < front.len() {
        assert(front[k] == sorted[k]);
        lemma_attached_covers(front, k);
        let i = choose|i: int|
            0 <= i < before.len() && lower((#[trigger] before[i]).header) == lower(
                sorted[k].header,
            ) && !text_less(sorted[k].audience, before[i].audience);
        assert(all[i] == before[i]);
    } else {
        let t = sorted.last();
        if targets(before, lower(t.header)) {
            let i = choose|i: int|
                0 <= i < before.len() && lower((#[trigger] before[i]).header) == lower(t.header);
            lemma_attached_members(front);
            assert(front.contains(before[i]));
            let m = choose|m: int| 0 <= m < front.len() && front[m] == before[i];
            assert(sorted[m] == before[i]);
            assert(!token_less(sorted[sorted.len() - 1], sorted[m]));
            assert(all[i] == before[i]);
        } else {
            lemma_less_irreflexive(t.audience);
            assert(all[before.len() as int] == t);
        }
    }
}

/// Every token that can be sent is attached, or yields to one for the same
/// header whose audience is not greater.
pub proof fn law_lowest_audience_wins(tokens: Seq<TokenView>, t: TokenView)
    requires
        tokens.contains(t),
        usable(t),
    ensures
        exists|i: int|
            0 <= i < attached(ordered(tokens)).len() && lower(
                (#[trigger] attached(ordered(tokens))[i]).header,
            ) == lower(t.header) && !text_less(t.audience, attached(ordered(tokens))[i].audience),
{
    lemma_ordered_members(tokens);
    lemma_ordered_in_order(tokens);
    let sorted = ordered(tokens);
    assert(sorted.contains(t));
    let k = choose|k: int| 0 <= k < sorted.len() && sorted[k] == t;
    lemma_attached_covers(sorted, k);
}

/// An inbound credential header is stripped exactly where tokens were attached
/// and none of them overwrites it.
pub proof fn law_stripped(inbound: Seq<Seq<char>>, tokens: Seq<TokenView>, h: Seq<char>)
    ensures
        stripped(inbound, tokens).contains(h) <==> exists|i: int|
            0 <= i < inbound.len() && valid_name(#[trigger] inbound[i]) && lower(inbound[i]) == h
                && !targets(tokens, h),
    decreases inbound.len(),
{
    if inbound.len() > 0 {
        let front = inbound.drop_last();
        let before = stripped(front, tokens);
        let all = stripped(inbound, tokens);
        law_stripped(front, tokens, h);
        if all.contains(h) {
            let i = choose|i: int| 0 <= i < all.len() && all[i] == h;
            if i < before.len() {
                assert(before[i] == h);
                let k = choose|k: int|
                    0 <= k < front.len() && valid_name(#[trigger] front[k]) && lower(front[k]) == h
                        && !targets(tokens, h);
                assert(inbound[k] == front[k]);
            } else {
                assert(valid_name(inbound[inbound.len() - 1]));
            }
        }
        if exists|i: int|
            0 <= i < inbound.len() && valid_name(#[trigger] inbound[i]) && lower(inbound[i]) == h
                && !targets(tokens, h) {
            let i = choose|i: int|
                0 <= i < inbound.len() && valid_name(#[trigger] inbound[i]) && lower(inbound[i])
                    == h && !targets(tokens, h);
            if i < front.len() {
                assert(front[i] == inbound[i]);
                assert(before.contains(h));
                let k = choose|k: int| 0 <= k < before.len() && before[k] == h;
                assert(all[k] == h);
            } else {
                assert(all.last() == h);
            }
        }
    }
}

/// A token goes out as a bearer credential under its header's name in lower case,
/// and can be sent exactly where that name and that value are valid.
pub proof fn law_token_on_the_wire(t: TokenView)
    ensures
        token_header(t).0 == lower(t.header),
        token_header(t).1 == vstd::utf8::encode_utf8("Bearer "@ + t.token),
        usable(t) <==> valid_name(t.header) && valid_value("Bearer "@ + t.token),
{
}

/// The attached tokens are in the order of their headers' names.
pub proof fn law_attached_in_order(tokens: Seq<TokenView>, i: int, j: int)
    requires
        0 <= i < j < attached(ordered(tokens)).len(),
    ensures
        text_less(
            lower(attached(ordered(tokens))[i].header),
            lower(attached(ordered(tokens))[j].header),
        ),
{
    let sorted = ordered(tokens);
    lemma_ordered_in_order(tokens);
    lemma_attached_members(sorted);
    lemma_attached_places(sorted, i, j);
    let a = attached(sorted)[i];
    let b = attached(sorted)[j];
    lemma_less_total(lower(a.header), lower(b.header));
}

proof fn lemma_attached_places(sorted: Seq<TokenView>, i: int, j: int)
    requires
        in_order(sorted),
        0 <= i < j < attached(sorted).len(),
    ensures
        !token_less(attached(sorted)[j], attached(sorted)[i]),
    decreases sorted.len(),
{
    let front = sorted.drop_last();
    let before = attached(front);
    lemma_front_in_order(sorted);
    if j < before.len() {
        lemma_attached_places(front, i, j);
    } else {
        lemma_attached_members(front);
        assert(front.contains(before[i]));
        let k = choose|k: int| 0 <= k < front.len() && front[k] == before[i];
        assert(sorted[k] == before[i]);
        assert(!token_less(sorted[sorted.len() - 1], sorted[k]));
    }
}

proof fn lemma_front_in_order(sorted: Seq<TokenView>)
    requires
        in_order(sorted),
        sorted.len() > 0,
    ensures
        in_order(sorted.drop_last()),
{
    let front = sorted.drop_last();
    assert forall|i: int, j: int| 0 <= i < j < front.len() implies !token_less(
        #[trigger] front[j],
        #[trigger] front[i],
    ) by {
        assert(front[j] == sorted[j] && front[i] == sorted[i]);
    }
}

/// Whether a token competes with `t` on equal terms: it can be sent, and has the
/// same header and audience.
pub open spec fn rivals(a: TokenView, t: TokenView) -> bool {
    usable(a) && lower(a.header) == lower(t.header) && a.audience == t.audience
}

/// The first token that is a rival of `t`.
spec fn first_rival(tokens: Seq<TokenView>, t: TokenView) -> Option<TokenView>
    decreases tokens.len(),
{
    if tokens.len() == 0 {
        None
    } else {
        match first_rival(tokens.drop_last(), t) {
            Some(a) => Some(a),
            None => if rivals(tokens.last(), t) {
                Some(tokens.last())
            } else {
                None
            },
        }
    }
}

proof fn lemma_insert_keeps_first(s: Seq<TokenView>, x: TokenView, t: TokenView)
    ensures
        first_rival(insert_token(s, x), t) == match first_rival(s, t) {
            Some(a) => Some(a),
            None => if rivals(x, t) {
                Some(x)
            } else {
                None
            },
        },
    decreases s.len(),
{
    let r = insert_token(s, x);
    if s.len() == 0 || !token_less(x, s.last()) {
        assert(r.drop_last() =~= s);
    } else {
        let front = s.drop_last();
        lemma_insert_keeps_first(front, x, t);
        assert(r.drop_last() =~= insert_token(front, x));
        if rivals(x, t) && rivals(s.last(), t) {
            lemma_less_irreflexive(lower(x.header));
            lemma_less_irreflexive(x.audience);
        }
    }
}

proof fn lemma_ordered_keeps_first(tokens: Seq<TokenView>, t: TokenView)
    ensures
        first_rival(ordered(tokens), t) == first_rival(tokens, t),
    decreases tokens.len(),
{
    if tokens.len() > 0 {
        lemma_ordered_keeps_first(tokens.drop_last(), t);
        lemma_insert_keeps_first(ordered(tokens.drop_last()), tokens.last(), t);
    }
}

proof fn lemma_first_rival_at(tokens: Seq<TokenView>, t: TokenView, i: int)
    requires
        0 <= i < tokens.len(),
        rivals(tokens[i], t),
        forall|j: int| 0 <= j < i ==> !rivals(#[trigger] tokens[j], t),
    ensures
        first_rival(tokens, t) == Some(tokens[i]),
    decreases tokens.len(),
{
    let front = tokens.drop_last();
    if i < front.len() {
        assert forall|j: int| 0 <= j < i implies !rivals(#[trigger] front[j], t) by {
            assert(front[j] == tokens[j]);
        }
        lemma_first_rival_at(front, t, i);
    } else {
        assert forall|j: int| 0 <= j < front.len() implies !rivals(#[trigger] front[j], t) by {
            assert(front[j] == tokens[j]);
        }
        lemma_no_rival(front, t);
    }
}

proof fn lemma_no_rival(tokens: Seq<TokenView>, t: TokenView)
    requires
        forall|j: int| 0 <= j < tokens.len() ==> !rivals(#[trigger] tokens[j], t),
    ensures
        first_rival(tokens, t) is None,
    decreases tokens.len(),
{
    if tokens.len() > 0 {
        let front = tokens.drop_last();
        assert(tokens[tokens.len() - 1] == tokens.last());
        assert forall|j: int| 0 <= j < front.len() implies !rivals(#[trigger] front[j], t) by {
            assert(front[j] == tokens[j]);
        }
        lemma_no_rival(front, t);
    }
}

/// An attached token is the first of its rivals.
proof fn lemma_attached_is_first(sorted: Seq<TokenView>, i: int, t: TokenView)
    requires
        0 <= i < attached(sorted).len(),
        rivals(attached(sorted)[i], t),
    ensures
        first_rival(sorted, t) == Some(attached(sorted)[i]),
    decreases sorted.len(),
{
    let front = sorted.drop_last();
    let before = attached(front);
    if i < before.len() {
        lemma_attached_is_first(front, i, t);
    } else if first_rival(front, t) is Some {
        lemma_first_rival_targets(front, t);
    }
}

/// Where there is a rival, its header is targeted by an attached token.
proof fn lemma_first_rival_targets(sorted: Seq<TokenView>, t: TokenView)
    requires
        first_rival(sorted, t) is Some,
    ensures
        targets(attached(sorted), lower(t.header)),
    decreases sorted.len(),
{
    let front = sorted.drop_last();
    let before = attached(front);
    let all = attached(sorted);
    if first_rival(front, t) is Some {
        lemma_first_rival_targets(front, t);
        let k = choose|k: int|
            0 <= k < before.len() && lower((#[trigger] before[k]).header) == lower(t.header);
        assert(all[k] == before[k]);
    } else if targets(before, lower(t.header)) {
        let k = choose|k: int|
            0 <= k < before.len() && lower((#[trigger] before[k]).header) == lower(t.header);
        assert(all[k] == before[k]);
    } else {
        assert(all[before.len() as int] == sorted.last());
    }
}

/// Which token is attached for a header: of those that can be sent, one with the
/// lowest audience; and of several with that audience the one minted first.
pub proof fn law_first_minted_wins(tokens: Seq<TokenView>, i: int)
    requires
        0 <= i < tokens.len(),
        usable(tokens[i]),
        forall|j: int|
            0 <= j < tokens.len() && usable(#[trigger] tokens[j]) && lower(tokens[j].header)
                == lower(tokens[i].header) ==> !text_less(tokens[j].audience, tokens[i].audience),
        forall|j: int|
            0 <= j < i && usable(#[trigger] tokens[j]) && lower(tokens[j].header) == lower(
                tokens[i].header,
            ) ==> tokens[j].audience != tokens[i].audience,
    ensures
        attached(ordered(tokens)).contains(tokens[i]),
{
    let t = tokens[i];
    let sorted = ordered(tokens);
    let chosen = attached(sorted);
    assert(tokens.contains(t));
    law_lowest_audience_wins(tokens, t);
    law_one_token_per_header(tokens);
    let k = choose|k: int|
        0 <= k < chosen.len() && lower((#[trigger] chosen[k]).header) == lower(t.header)
            && !text_less(t.audience, chosen[k].audience);
    assert(tokens.contains(chosen[k]));
    let m = choose|m: int| 0 <= m < tokens.len() && tokens[m] == chosen[k];
    assert(usable(tokens[m]));
    lemma_less_total(t.audience, chosen[k].audience);
    assert(rivals(chosen[k], t));
    lemma_attached_is_first(sorted, k, t);
    lemma_ordered_keeps_first(tokens, t);
    lemma_first_rival_at(tokens, t, i);
}

} // verus!
