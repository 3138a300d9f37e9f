//! Parsing of wire-format XML text into an element tree.
//!
//! The grammar accepted here is pinned down by the spec functions below:
//! an optional prologue of processing instructions, one root element,
//! attributes in double quotes, the five standard entities, self-closing
//! tags, and matching close tags. Whitespace-only text between sibling
//! elements is discarded; any other malformation is rejected.

use vstd::prelude::*;

use crate::errors::RpcError;
use crate::tree::{Element, ElemModel, lemma_model_child};
use crate::codec::{pair_models, seq_models};
use crate::text::match_at;

verus! {

broadcast use vstd::std_specs::vec::group_vec_axioms, vstd::seq::group_seq_axioms;

/// XML whitespace.
pub open spec fn is_ws(c: char) -> bool {
    c == ' ' || c == '\t' || c == '\r' || c == '\n'
}

/// A character that may stand in a tag or attribute name.
pub open spec fn is_name_char(c: char) -> bool {
    &&& !is_ws(c)
    &&& c != '<'
    &&& c != '>'
    &&& c != '/'
    &&& c != '='
    &&& c != '"'
    &&& c != '\''
    &&& c != '&'
    &&& c != '?'
    &&& c != '!'
}

/// The outcome of one spec-level parsing step: failure, or a value together
/// with the index just past what was consumed.
pub ghost enum Parsed<T> {
    Fail,
    Val(T, int),
}

/// End of the whitespace run starting at `i`.
pub open spec fn sp_ws(s: Seq<char>, i: int) -> int
    decreases s.len() - i,
{
    if 0 <= i < s.len() && is_ws(s[i]) {
        sp_ws(s, i + 1)
    } else {
        i
    }
}

/// End of the name-character run starting at `i`.
pub open spec fn sp_name_end(s: Seq<char>, i: int) -> int
    decreases s.len() - i,
{
    if 0 <= i < s.len() && is_name_char(s[i]) {
        sp_name_end(s, i + 1)
    } else {
        i
    }
}

pub proof fn lemma_sp_name_bounds(s: Seq<char>, i: int)
    requires
        0 <= i <= s.len(),
    ensures
        i <= sp_name_end(s, i) <= s.len(),
    decreases s.len() - i,
{
    if i < s.len() && is_name_char(s[i]) {
        lemma_sp_name_bounds(s, i + 1);
    }
}

/// One of the five standard entities starting at `i`, decoded.
pub open spec fn sp_entity(s: Seq<char>, i: int) -> Parsed<char> {
    if 0 <= i && i + 5 <= s.len() && s.subrange(i, i + 5) == seq!['&', 'a', 'm', 'p', ';'] {
        Parsed::Val('&', i + 5)
    } else if 0 <= i && i + 4 <= s.len() && s.subrange(i, i + 4) == seq!['&', 'l', 't', ';'] {
        Parsed::Val('<', i + 4)
    } else if 0 <= i && i + 4 <= s.len() && s.subrange(i, i + 4) == seq!['&', 'g', 't', ';'] {
        Parsed::Val('>', i + 4)
    } else if 0 <= i && i + 6 <= s.len() && s.subrange(i, i + 6) == seq!['&', 'q', 'u', 'o', 't', ';'] {
        Parsed::Val('"', i + 6)
    } else if 0 <= i && i + 6 <= s.len() && s.subrange(i, i + 6) == seq!['&', 'a', 'p', 'o', 's', ';'] {
        Parsed::Val('\'', i + 6)
    } else {
        Parsed::Fail
    }
}

/// A double-quoted attribute value starting at `i` (just past the opening
/// quote), decoded, ending just past the closing quote.
pub open spec fn sp_qval(s: Seq<char>, i: int) -> Parsed<Seq<char>>
    decreases s.len() - i,
{
    if !(0 <= i < s.len()) {
        Parsed::Fail
    } else if s[i] == '"' {
        Parsed::Val(Seq::empty(), i + 1)
    } else if s[i] == '<' {
        Parsed::Fail
    } else if s[i] == '&' {
        match sp_entity(s, i) {
            Parsed::Fail => Parsed::Fail,
            Parsed::Val(c, j) => if i < j <= s.len() {
                match sp_qval(s, j) {
                    Parsed::Fail => Parsed::Fail,
                    Parsed::Val(v, e) => Parsed::Val(seq![c] + v, e),
                }
            } else {
                Parsed::Fail
            },
        }
    } else {
        match sp_qval(s, i + 1) {
            Parsed::Fail => Parsed::Fail,
            Parsed::Val(v, e) => Parsed::Val(seq![s[i]] + v, e),
        }
    }
}

/// A run of character data starting at `i`, decoded, ending at the next `<`.
pub open spec fn sp_text(s: Seq<char>, i: int) -> Parsed<Seq<char>>
    decreases s.len() - i,
{
    if !(0 <= i < s.len()) {
        Parsed::Fail
    } else if s[i] == '<' {
        Parsed::Val(Seq::empty(), i)
    } else if s[i] == '&' {
        match sp_entity(s, i) {
            Parsed::Fail => Parsed::Fail,
            Parsed::Val(c, j) => if i < j <= s.len() {
                match sp_text(s, j) {
                    Parsed::Fail => Parsed::Fail,
                    Parsed::Val(v, e) => Parsed::Val(seq![c] + v, e),
                }
            } else {
                Parsed::Fail
            },
        }
    } else {
        match sp_text(s, i + 1) {
            Parsed::Fail => Parsed::Fail,
            Parsed::Val(v, e) => Parsed::Val(seq![s[i]] + v, e),
        }
    }
}

/// The attribute list starting at `i` (just past the tag name), ending at the
/// first character that can close the tag.
pub open spec fn sp_attrs(s: Seq<char>, i: int) -> Parsed<Seq<(Seq<char>, Seq<char>)>>
    decreases s.len() - i,
{
    let j = sp_ws(s, i);
    if j < s.len() && is_name_char(s[j]) {
        let k = sp_name_end(s, j);
        if k + 1 < s.len() && s[k] == '=' && s[k + 1] == '"' {
            match sp_qval(s, k + 2) {
                Parsed::Fail => Parsed::Fail,
                Parsed::Val(v, m) => if i < m <= s.len() {
                    match sp_attrs(s, m) {
                        Parsed::Fail => Parsed::Fail,
                        Parsed::Val(rest, e) => Parsed::Val(
                            seq![(s.subrange(j, k), v)] + rest,
                            e,
                        ),
                    }
                } else {
                    Parsed::Fail
                },
            }
        } else {
            Parsed::Fail
        }
    } else {
        Parsed::Val(Seq::empty(), j)
    }
}

/// Whether a text piece holds anything besides whitespace.
pub open spec fn meaningful(t: Seq<char>) -> bool {
    exists|i: int| 0 <= i < t.len() && !is_ws(t[i])
}

/// The concatenation of a list of text pieces.
pub open spec fn concat_texts(ts: Seq<Seq<char>>) -> Seq<char>
    decreases ts.len(),
{
    if ts.len() == 0 {
        Seq::empty()
    } else {
        ts[0] + concat_texts(ts.drop_first())
    }
}

/// The text pieces that hold anything besides whitespace, in order.
pub open spec fn kept_texts(ts: Seq<Seq<char>>) -> Seq<Seq<char>>
    decreases ts.len(),
{
    if ts.len() == 0 {
        Seq::empty()
    } else if meaningful(ts[0]) {
        seq![ts[0]] + kept_texts(ts.drop_first())
    } else {
        kept_texts(ts.drop_first())
    }
}

/// The text content of an element, from its raw text pieces. An element
/// without children keeps its single piece verbatim, so absent and empty
/// text stay distinct; between child elements, whitespace-only pieces are
/// insignificant and are discarded.
pub open spec fn assemble_text(ts: Seq<Seq<char>>, n_children: nat) -> Option<Seq<char>> {
    if n_children == 0 {
        Option::Some(concat_texts(ts))
    } else {
        if kept_texts(ts).len() == 0 {
            Option::None
        } else {
            Option::Some(concat_texts(kept_texts(ts)))
        }
    }
}

/// One element starting at `i` (at its `<`).
pub open spec fn sp_elem(s: Seq<char>, i: int) -> Parsed<ElemModel>
    decreases s.len() - i, 1int,
{
    if !(0 <= i && i + 1 < s.len() && s[i] == '<') {
        Parsed::Fail
    } else {
        let k = sp_name_end(s, i + 1);
        if !(i + 1 < k <= s.len()) {
            Parsed::Fail
        } else {
            let name = s.subrange(i + 1, k);
            match sp_attrs(s, k) {
                Parsed::Fail => Parsed::Fail,
                Parsed::Val(attrs, m) => if m + 1 < s.len() && s[m] == '/' && s[m + 1] == '>' {
                    Parsed::Val(
                        ElemModel { name, attrs, children: Seq::empty(), text: Option::None },
                        m + 2,
                    )
                } else if i < m + 1 <= s.len() && s[m] == '>' {
                    match sp_content(s, m + 1, name) {
                        Parsed::Fail => Parsed::Fail,
                        Parsed::Val((ts, cs), e) => Parsed::Val(
                            ElemModel {
                                name,
                                attrs,
                                children: cs,
                                text: assemble_text(ts, cs.len()),
                            },
                            e,
                        ),
                    }
                } else {
                    Parsed::Fail
                },
            }
        }
    }
}

/// The content of an open element: text pieces and child elements, up to and
/// past the matching close tag `</name>`.
pub open spec fn sp_content(s: Seq<char>, i: int, name: Seq<char>) -> Parsed<
    (Seq<Seq<char>>, Seq<ElemModel>),
>
    decreases s.len() - i, 2int,
{
    if !(0 <= i <= s.len()) {
        Parsed::Fail
    } else {
        match sp_text(s, i) {
            Parsed::Fail => Parsed::Fail,
            Parsed::Val(t, j) => if !(i <= j && j + 1 < s.len() && s[j] == '<') {
                Parsed::Fail
            } else if s[j + 1] == '/' {
                if j + 2 + name.len() < s.len() && s.subrange(j + 2, j + 2 + name.len()) == name
                    && s[j + 2 + name.len()] == '>' {
                    Parsed::Val((seq![t], Seq::empty()), j + 2 + name.len() + 1)
                } else {
                    Parsed::Fail
                }
            } else {
                match sp_elem(s, j) {
                    Parsed::Fail => Parsed::Fail,
                    Parsed::Val(child, e) => if i < e <= s.len() {
                        match sp_content(s, e, name) {
                            Parsed::Fail => Parsed::Fail,
                            Parsed::Val((ts, cs), e2) => Parsed::Val(
                                (seq![t] + ts, seq![child] + cs),
                                e2,
                            ),
                        }
                    } else {
                        Parsed::Fail
                    },
                }
            },
        }
    }
}

/// End of a processing instruction: the index just past the next `?>`.
pub open spec fn sp_pi_end(s: Seq<char>, i: int) -> Parsed<()>
    decreases s.len() - i,
{
    if !(0 <= i < s.len()) {
        Parsed::Fail
    } else if i + 1 < s.len() && s[i] == '?' && s[i + 1] == '>' {
        Parsed::Val((), i + 2)
    } else {
        sp_pi_end(s, i + 1)
    }
}

/// The index just past the document prologue: leading whitespace and any
/// processing instructions.
pub open spec fn sp_prologue(s: Seq<char>, i: int) -> Parsed<()>
    decreases s.len() - i, 1int,
{
    if !(0 <= i <= s.len()) {
        Parsed::Fail
    } else {
        let j = sp_ws(s, i);
        if i <= j && j + 1 < s.len() && s[j] == '<' && s[j + 1] == '?' {
            match sp_pi_end(s, j + 2) {
                Parsed::Fail => Parsed::Fail,
                Parsed::Val(u, e) => if i < e <= s.len() {
                    sp_prologue(s, e)
                } else {
                    Parsed::Fail
                },
            }
        } else {
            Parsed::Val((), j)
        }
    }
}

fn is_ws_x(c: char) -> (b: bool)
    ensures
        b == is_ws(c),
{
    c == ' ' || c == '\t' || c == '\r' || c == '\n'
}

fn is_name_char_x(c: char) -> (b: bool)
    ensures
        b == is_name_char(c),
{
    !(c == ' ' || c == '\t' || c == '\r' || c == '\n' || c == '<' || c == '>' || c == '/' || c
        == '=' || c == '"' || c == '\'' || c == '&' || c == '?' || c == '!')
}

#[verifier::loop_isolation(false)]
fn ws_end(s: &str, i: usize) -> (j: usize)
    requires
        i <= s@.len(),
    ensures
        j as int == sp_ws(s@, i as int),
        i <= j <= s@.len(),
{
    let n = s.unicode_len();
    let mut p = i;
    while p < n && is_ws_x(s.get_char(p))
        invariant
            i <= p <= n,
            n == s@.len(),
            sp_ws(s@, i as int) == sp_ws(s@, p as int),
        decreases n - p,
    {
        p += 1;
    }
    p
}

#[verifier::loop_isolation(false)]
fn name_end(s: &str, i: usize) -> (j: usize)
    requires
        i <= s@.len(),
    ensures
        j as int == sp_name_end(s@, i as int),
        i <= j <= s@.len(),
{
    let n = s.unicode_len();
    let mut p = i;
    while p < n && is_name_char_x(s.get_char(p))
        invariant
            i <= p <= n,
            n == s@.len(),
            sp_name_end(s@, i as int) == sp_name_end(s@, p as int),
        decreases n - p,
    {
        p += 1;
    }
    p
}

fn entity(s: &str, i: usize) -> (r: Option<(char, usize)>)
    requires
        i <= s@.len(),
    ensures
        match r {
            Option::None => sp_entity(s@, i as int) is Fail,
            Option::Some((c, j)) => sp_entity(s@, i as int) == Parsed::Val(c, j as int) && i < j
                <= s@.len(),
        },
{
    proof {
        reveal_strlit("&amp;");
        reveal_strlit("&lt;");
        reveal_strlit("&gt;");
        reveal_strlit("&quot;");
        reveal_strlit("&apos;");
        assert("&amp;"@ =~= seq!['&', 'a', 'm', 'p', ';']);
        assert("&lt;"@ =~= seq!['&', 'l', 't', ';']);
        assert("&gt;"@ =~= seq!['&', 'g', 't', ';']);
        assert("&quot;"@ =~= seq!['&', 'q', 'u', 'o', 't', ';']);
        assert("&apos;"@ =~= seq!['&', 'a', 'p', 'o', 's', ';']);
    }
    let n = s.unicode_len();
    if match_at(s, i, "&amp;") {
        Some(('&', i + 5))
    } else if match_at(s, i, "&lt;") {
        Some(('<', i + 4))
    } else if match_at(s, i, "&gt;") {
        Some(('>', i + 4))
    } else if match_at(s, i, "&quot;") {
        Some(('"', i + 6))
    } else if match_at(s, i, "&apos;") {
        Some(('\'', i + 6))
    } else {
        None
    }
}

/// Appends one decoded entity character.
fn push_decoded(out: &mut String, c: char)
    requires
        c == '&' || c == '<' || c == '>' || c == '"' || c == '\'',
    ensures
        final(out)@ == old(out)@ + seq![c],
{
    if c == '&' {
        out.append("&");
        proof {
            reveal_strlit("&");
            assert(out@ =~= old(out)@ + seq![c]);
        }
    } else if c == '<' {
        out.append("<");
        proof {
            reveal_strlit("<");
            assert(out@ =~= old(out)@ + seq![c]);
        }
    } else if c == '>' {
        out.append(">");
        proof {
            reveal_strlit(">");
            assert(out@ =~= old(out)@ + seq![c]);
        }
    } else if c == '"' {
        out.append("\"");
        proof {
            reveal_strlit("\"");
            assert(out@ =~= old(out)@ + seq![c]);
        }
    } else {
        out.append("'");
        proof {
            reveal_strlit("'");
            assert(out@ =~= old(out)@ + seq![c]);
        }
    }
}

/// Reads a quoted attribute value, decoding entities, up to and past the
/// closing quote.
#[verifier::loop_isolation(false)]
fn qval(s: &str, i: usize) -> (r: Option<(String, usize)>)
    requires
        i <= s@.len(),
    ensures
        match r {
            Option::None => sp_qval(s@, i as int) is Fail,
            Option::Some((v, j)) => sp_qval(s@, i as int) == Parsed::Val(v@, j as int) && i < j
                <= s@.len(),
        },
{
    let n = s.unicode_len();
    let mut acc = String::new();
    let mut rs = i;
    let mut p = i;
    while p < n
        invariant
            i <= rs <= p <= n,
            n == s@.len(),
            forall|t: int| rs <= t < p ==> s@[t] != '"' && s@[t] != '<' && s@[t] != '&',
            sp_qval(s@, i as int) == (match sp_qval(s@, p as int) {
                Parsed::Fail => Parsed::Fail,
                Parsed::Val(v, e) => Parsed::Val(acc@ + s@.subrange(rs as int, p as int) + v, e),
            }),
        decreases n - p,
    {
        let c = s.get_char(p);
        if c == '"' {
            let ghost pre = acc@;
            acc.append(s.substring_char(rs, p));
            proof {
                assert((pre + s@.subrange(rs as int, p as int)) + Seq::<char>::empty() =~= acc@);
            }
            return Some((acc, p + 1));
        }
        if c == '<' {
            return None;
        }
        if c == '&' {
            match entity(s, p) {
                None => {
                    return None;
                },
                Some((ec, q)) => {
                    let ghost pre = acc@;
                    acc.append(s.substring_char(rs, p));
                    push_decoded(&mut acc, ec);
                    proof {
                        assert(acc@ =~= pre + s@.subrange(rs as int, p as int) + seq![ec]);
                        assert(forall|v: Seq<char>|
                            (pre + s@.subrange(rs as int, p as int) + seq![ec]) + (s@.subrange(
                                q as int,
                                q as int,
                            ) + v) =~= pre + s@.subrange(rs as int, p as int) + (seq![ec] + v));
                    }
                    rs = q;
                    p = q;
                },
            }
        } else {
            proof {
                assert(s@.subrange(rs as int, p + 1) =~= s@.subrange(rs as int, p as int) + seq![
                    s@[p as int],
                ]);
                assert(forall|v: Seq<char>|
                    acc@ + s@.subrange(rs as int, p + 1) + v =~= acc@ + s@.subrange(
                        rs as int,
                        p as int,
                    ) + (seq![s@[p as int]] + v));
            }
            p += 1;
        }
    }
    None
}

/// Reads character data, decoding entities, up to the next `<`.
#[verifier::loop_isolation(false)]
fn text_run(s: &str, i: usize) -> (r: Option<(String, usize)>)
    requires
        i <= s@.len(),
    ensures
        match r {
            Option::None => sp_text(s@, i as int) is Fail,
            Option::Some((v, j)) => sp_text(s@, i as int) == Parsed::Val(v@, j as int) && i <= j
                <= s@.len() && j < s@.len() && s@[j as int] == '<',
        },
{
    let n = s.unicode_len();
    let mut acc = String::new();
    let mut rs = i;
    let mut p = i;
    while p < n
        invariant
            i <= rs <= p <= n,
            n == s@.len(),
            forall|t: int| rs <= t < p ==> s@[t] != '<' && s@[t] != '&',
            sp_text(s@, i as int) == (match sp_text(s@, p as int) {
                Parsed::Fail => Parsed::Fail,
                Parsed::Val(v, e) => Parsed::Val(acc@ + s@.subrange(rs as int, p as int) + v, e),
            }),
        decreases n - p,
    {
        let c = s.get_char(p);
        if c == '<' {
            let ghost pre = acc@;
            acc.append(s.substring_char(rs, p));
            proof {
                assert((pre + s@.subrange(rs as int, p as int)) + Seq::<char>::empty() =~= acc@);
            }
            return Some((acc, p));
        }
        if c == '&' {
            match entity(s, p) {
                None => {
                    return None;
                },
                Some((ec, q)) => {
                    let ghost pre = acc@;
                    acc.append(s.substring_char(rs, p));
                    push_decoded(&mut acc, ec);
                    proof {
                        assert(acc@ =~= pre + s@.subrange(rs as int, p as int) + seq![ec]);
                        assert(forall|v: Seq<char>|
                            (pre + s@.subrange(rs as int, p as int) + seq![ec]) + (s@.subrange(
                                q as int,
                                q as int,
                            ) + v) =~= pre + s@.subrange(rs as int, p as int) + (seq![ec] + v));
                    }
                    rs = q;
                    p = q;
                },
            }
        } else {
            proof {
                assert(s@.subrange(rs as int, p + 1) =~= s@.subrange(rs as int, p as int) + seq![
                    s@[p as int],
                ]);
                assert(forall|v: Seq<char>|
                    acc@ + s@.subrange(rs as int, p + 1) + v =~= acc@ + s@.subrange(
                        rs as int,
                        p as int,
                    ) + (seq![s@[p as int]] + v));
            }
            p += 1;
        }
    }
    None
}

/// The views of a list of owned strings, in order.
pub open spec fn str_models(ts: Seq<String>) -> Seq<Seq<char>> {
    ts.map_values(|t: String| t@)
}

/// Reads the attribute list that follows a tag name.
fn attrs(s: &str, i: usize) -> (r: Option<(Vec<(String, String)>, usize)>)
    requires
        i <= s@.len(),
    ensures
        match r {
            Option::None => sp_attrs(s@, i as int) is Fail,
            Option::Some((av, j)) => sp_attrs(s@, i as int) == Parsed::Val(
                pair_models(av@),
                j as int,
            ) && i <= j <= s@.len(),
        },
    decreases s@.len() - i,
{
    let n = s.unicode_len();
    let j = ws_end(s, i);
    if j < n && is_name_char_x(s.get_char(j)) {
        let k = name_end(s, j);
        proof {
            lemma_sp_name_bounds(s@, j + 1);
        }
        if k < n && k + 1 < n && s.get_char(k) == '=' && s.get_char(k + 1) == '"' {
            match qval(s, k + 2) {
                None => None,
                Some((v, m)) => {
                    match attrs(s, m) {
                        None => None,
                        Some((mut rest, e)) => {
                            let ghost rest0 = rest@;
                            let name = s.substring_char(j, k).to_owned();
                            rest.insert(0, (name, v));
                            proof {
                                assert(pair_models(rest@) =~= seq![
                                    (s@.subrange(j as int, k as int), v@),
                                ] + pair_models(rest0));
                            }
                            Some((rest, e))
                        },
                    }
                },
            }
        } else {
            None
        }
    } else {
        proof {
            assert(pair_models(Seq::<(String, String)>::empty()) =~= Seq::<
                (Seq<char>, Seq<char>),
            >::empty());
        }
        Some((Vec::new(), j))
    }
}

/// Whether a text holds anything besides whitespace.
#[verifier::loop_isolation(false)]
fn has_content(t: &str) -> (b: bool)
    ensures
        b == meaningful(t@),
{
    let n = t.unicode_len();
    let mut p: usize = 0;
    while p < n
        invariant
            p <= n,
            n == t@.len(),
            forall|j: int| 0 <= j < p ==> is_ws(t@[j]),
        decreases n - p,
    {
        if !is_ws_x(t.get_char(p)) {
            return true;
        }
        p += 1;
    }
    false
}

/// Concatenates a list of texts.
#[verifier::loop_isolation(false)]
fn join_texts(v: &Vec<String>) -> (r: String)
    ensures
        r@ == concat_texts(str_models(v@)),
{
    let n = v.len();
    let mut acc = String::new();
    let mut t: usize = 0;
    proof {
        assert(str_models(v@).skip(0) =~= str_models(v@));
    }
    while t < n
        invariant
            t <= n,
            n == v@.len(),
            concat_texts(str_models(v@)) == acc@ + concat_texts(str_models(v@).skip(t as int)),
        decreases n - t,
    {
        let ghost m = str_models(v@);
        acc.append(v[t].as_str());
        proof {
            assert(m.skip(t as int).drop_first() =~= m.skip(t as int + 1));
            assert(m.skip(t as int)[0] == m[t as int]);
            assert((acc@ + concat_texts(m.skip(t as int + 1))) =~= (acc@ + concat_texts(
                m.skip(t as int + 1),
            )));
        }
        t += 1;
    }
    proof {
        assert(concat_texts(str_models(v@).skip(n as int)) =~= Seq::<char>::empty());
        assert(acc@ + Seq::<char>::empty() =~= acc@);
    }
    acc
}

/// Keeps the texts that hold anything besides whitespace, in order.
#[verifier::loop_isolation(false)]
fn keep_meaningful(v: &Vec<String>) -> (r: Vec<String>)
    ensures
        str_models(r@) == kept_texts(str_models(v@)),
{
    let n = v.len();
    let mut kept: Vec<String> = Vec::new();
    let mut t: usize = 0;
    proof {
        assert(str_models(v@).skip(0) =~= str_models(v@));
        assert(str_models(kept@) =~= Seq::<Seq<char>>::empty());
    }
    while t < n
        invariant
            t <= n,
            n == v@.len(),
            kept_texts(str_models(v@)) == str_models(kept@) + kept_texts(
                str_models(v@).skip(t as int),
            ),
        decreases n - t,
    {
        let ghost m = str_models(v@);
        let ghost k0 = str_models(kept@);
        proof {
            assert(m.skip(t as int).drop_first() =~= m.skip(t as int + 1));
            assert(m.skip(t as int)[0] == m[t as int]);
        }
        if has_content(v[t].as_str()) {
            kept.push(v[t].clone());
            proof {
                assert(str_models(kept@) =~= k0 + seq![m[t as int]]);
                assert((k0 + seq![m[t as int]]) + kept_texts(m.skip(t as int + 1)) =~= k0 + (seq![
                    m[t as int],
                ] + kept_texts(m.skip(t as int + 1))));
            }
        }
        t += 1;
    }
    proof {
        assert(kept_texts(str_models(v@).skip(n as int)) =~= Seq::<Seq<char>>::empty());
        assert(str_models(kept@) + Seq::<Seq<char>>::empty() =~= str_models(kept@));
    }
    kept
}

/// Reads one element starting at its `<`.
fn elem(s: &str, i: usize) -> (r: Option<(Element, usize)>)
    requires
        i <= s@.len(),
    ensures
        match r {
            Option::None => sp_elem(s@, i as int) is Fail,
            Option::Some((e, j)) => sp_elem(s@, i as int) == Parsed::Val(e@, j as int) && i < j
                <= s@.len(),
        },
    decreases s@.len() - i, 1int,
{
    broadcast use lemma_model_child;

    let n = s.unicode_len();
    if !(i < n && i + 1 < n && s.get_char(i) == '<') {
        return None;
    }
    let k = name_end(s, i + 1);
    if k == i + 1 {
        return None;
    }
    match attrs(s, k) {
        None => None,
        Some((av, m)) => {
            if m < n && m + 1 < n && s.get_char(m) == '/' && s.get_char(m + 1) == '>' {
                let e = Element {
                    name: s.substring_char(i + 1, k).to_owned(),
                    attributes: av,
                    children: Vec::new(),
                    text: None,
                };
                proof {
                    assert(e@.attrs =~= pair_models(e.attributes@));
                    assert(e@.children =~= Seq::<ElemModel>::empty());
                    assert(e@ =~= (ElemModel {
                        name: s@.subrange(i + 1, k as int),
                        attrs: pair_models(e.attributes@),
                        children: Seq::<ElemModel>::empty(),
                        text: Option::None,
                    }));
                }
                Some((e, m + 2))
            } else if m < n && s.get_char(m) == '>' {
                match content(s, m + 1, s.substring_char(i + 1, k)) {
                    None => None,
                    Some((ts, cs, e2)) => {
                        let text: Option<String> = if cs.len() == 0 {
                            Some(join_texts(&ts))
                        } else {
                            let kept = keep_meaningful(&ts);
                            if kept.len() == 0 {
                                None
                            } else {
                                Some(join_texts(&kept))
                            }
                        };
                        proof {
                            assert(match text {
                                Option::None => Option::<Seq<char>>::None,
                                Option::Some(t) => Option::Some(t@),
                            } == assemble_text(str_models(ts@), seq_models(cs@).len()));
                        }
                        let e = Element {
                            name: s.substring_char(i + 1, k).to_owned(),
                            attributes: av,
                            children: cs,
                            text,
                        };
                        proof {
                            assert(e@.attrs =~= pair_models(e.attributes@));
                            assert(e@.children =~= seq_models(e.children@));
                            assert(e@ =~= (ElemModel {
                                name: s@.subrange(i + 1, k as int),
                                attrs: pair_models(e.attributes@),
                                children: seq_models(e.children@),
                                text: assemble_text(
                                    str_models(ts@),
                                    seq_models(e.children@).len(),
                                ),
                            }));
                        }
                        Some((e, e2))
                    },
                }
            } else {
                None
            }
        },
    }
}

/// Reads the content of an open element, through the matching close tag.
fn content(s: &str, i: usize, name: &str) -> (r: Option<(Vec<String>, Vec<Element>, usize)>)
    requires
        i <= s@.len(),
    ensures
        match r {
            Option::None => sp_content(s@, i as int, name@) is Fail,
            Option::Some((ts, cs, j)) => sp_content(s@, i as int, name@) == Parsed::Val(
                (str_models(ts@), seq_models(cs@)),
                j as int,
            ) && i < j <= s@.len(),
        },
    decreases s@.len() - i, 2int,
{
    broadcast use lemma_model_child;

    let n = s.unicode_len();
    match text_run(s, i) {
        None => None,
        Some((t, j)) => {
            if !(j + 1 < n) {
                return None;
            }
            if s.get_char(j + 1) == '/' {
                let pl = name.unicode_len();
                if match_at(s, j + 2, name) {
                    if j + 2 + pl < n && s.get_char(j + 2 + pl) == '>' {
                        let mut ts: Vec<String> = Vec::new();
                        ts.push(t);
                        proof {
                            assert(str_models(ts@) =~= seq![t@]);
                            assert(seq_models(Seq::<Element>::empty()) =~= Seq::<
                                ElemModel,
                            >::empty());
                        }
                        let cs: Vec<Element> = Vec::new();
                        Some((ts, cs, j + 2 + pl + 1))
                    } else {
                        None
                    }
                } else {
                    None
                }
            } else {
                match elem(s, j) {
                    None => None,
                    Some((child, e)) => {
                        match content(s, e, name) {
                            None => None,
                            Some((mut ts2, mut cs2, e2)) => {
                                let ghost ts0 = ts2@;
                                let ghost cs0 = cs2@;
                                ts2.insert(0, t);
                                cs2.insert(0, child);
                                proof {
                                    assert(str_models(ts2@) =~= seq![t@] + str_models(ts0));
                                    assert(seq_models(cs2@) =~= seq![child@] + seq_models(cs0));
                                }
                                Some((ts2, cs2, e2))
                            },
                        }
                    },
                }
            }
        },
    }
}

/// Scans to the end of a processing instruction.
#[verifier::loop_isolation(false)]
fn pi_end(s: &str, i: usize) -> (r: Option<usize>)
    requires
        i <= s@.len(),
    ensures
        match r {
            Option::None => sp_pi_end(s@, i as int) is Fail,
            Option::Some(e) => sp_pi_end(s@, i as int) == Parsed::Val((), e as int) && i < e
                <= s@.len(),
        },
{
    let n = s.unicode_len();
    let mut p = i;
    while p < n
        invariant
            i <= p <= n,
            n == s@.len(),
            sp_pi_end(s@, i as int) == sp_pi_end(s@, p as int),
        decreases n - p,
    {
        if p + 1 < n && s.get_char(p) == '?' && s.get_char(p + 1) == '>' {
            return Some(p + 2);
        }
        p += 1;
    }
    None
}

/// Skips the document prologue.
fn prologue(s: &str, i: usize) -> (r: Option<usize>)
    requires
        i <= s@.len(),
    ensures
        match r {
            Option::None => sp_prologue(s@, i as int) is Fail,
            Option::Some(p) => sp_prologue(s@, i as int) == Parsed::Val((), p as int) && i <= p
                <= s@.len(),
        },
    decreases s@.len() - i,
{
    let n = s.unicode_len();
    let j = ws_end(s, i);
    if j < n && j + 1 < n && s.get_char(j) == '<' && s.get_char(j + 1) == '?' {
        match pi_end(s, j + 2) {
            None => None,
            Some(e) => prologue(s, e),
        }
    } else {
        Some(j)
    }
}

/// Parses a single well-formed XML document into one element tree. Malformed
/// input of any kind is rejected whole: no partial tree is ever returned.
pub fn parse(s: &str) -> (r: Result<Element, RpcError>)
    ensures
        match r {
            Result::Ok(e) => sp_doc(s@) == Option::Some(e@),
            Result::Err(err) => sp_doc(s@) is None && err matches RpcError::MalformedXml { .. },
        },
{
    let n = s.unicode_len();
    match prologue(s, 0) {
        None => Err(malformed()),
        Some(p) => {
            match elem(s, p) {
                None => Err(malformed()),
                Some((e, j)) => {
                    let w = ws_end(s, j);
                    if w == n {
                        Ok(e)
                    } else {
                        Err(malformed())
                    }
                },
            }
        },
    }
}

fn malformed() -> (r: RpcError)
    ensures
        r matches RpcError::MalformedXml { .. },
{
    RpcError::MalformedXml { detail: "the input is not a well-formed XML document".to_owned() }
}

/// The whole document: prologue, one root element, trailing whitespace.
pub open spec fn sp_doc(s: Seq<char>) -> Option<ElemModel> {
    match sp_prologue(s, 0) {
        Parsed::Fail => Option::None,
        Parsed::Val(u, p) => match sp_elem(s, p) {
            Parsed::Fail => Option::None,
            Parsed::Val(e, j) => if sp_ws(s, j) == s.len() {
                Option::Some(e)
            } else {
                Option::None
            },
        },
    }
}

} // verus!
