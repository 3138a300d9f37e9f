//! The round-trip law of the XML codec: parsing inverts serialization.
//!
//! `serialize` promises that its output is `xml_of` of the tree's model, and
//! `parse` promises that its result is `sp_doc` of its input, so the law is
//! stated and proved over those two spec functions. It holds for every tree
//! the builder API can make whose names are usable tag names and whose text
//! obeys the whitespace rule stated at `serializable`.

use vstd::prelude::*;

use crate::codec::{attr_xml, attrs_xml, children_xml, esc, esc_char, is_escaped_char, xml_of};
use crate::parser::{
    assemble_text, concat_texts, is_name_char, is_ws, kept_texts, meaningful, sp_attrs,
    sp_content, sp_doc, sp_elem, sp_entity, sp_name_end, sp_prologue, sp_qval, sp_text, sp_ws,
    Parsed,
};
use crate::tree::ElemModel;

verus! {

broadcast use vstd::seq::group_seq_axioms;

/// A name that can stand in a tag: nonempty, made of name characters.
pub open spec fn valid_name(n: Seq<char>) -> bool {
    n.len() > 0 && forall|i: int| 0 <= i < n.len() ==> is_name_char(n[i])
}

/// The trees whose wire form reads back as the same tree: tag and attribute
/// names are usable names, and an element that has both children and text
/// carries some non-whitespace text, since whitespace-only runs between
/// children are not significant on the wire.
pub open spec fn serializable(e: ElemModel) -> bool
    decreases e,
{
    &&& valid_name(e.name)
    &&& (forall|i: int| 0 <= i < e.attrs.len() ==> valid_name(#[trigger] e.attrs[i].0))
    &&& (e.children.len() > 0 ==> match e.text {
        Option::None => true,
        Option::Some(t) => meaningful(t),
    })
    &&& serializable_all(e.children)
}

pub open spec fn serializable_all(cs: Seq<ElemModel>) -> bool
    decreases cs,
{
    cs.len() == 0 || (serializable(cs[0]) && serializable_all(cs.drop_first()))
}

proof fn lemma_window_split(s: Seq<char>, i: int, a: Seq<char>, b: Seq<char>)
    requires
        0 <= i,
        i + a.len() + b.len() <= s.len(),
        s.subrange(i, i + a.len() + b.len()) == a + b,
    ensures
        s.subrange(i, i + a.len()) == a,
        s.subrange(i + a.len(), i + a.len() + b.len()) == b,
{
    assert(s.subrange(i, i + a.len()) =~= a);
    assert forall|x: int| 0 <= x < b.len() implies s.subrange(
        i + a.len(),
        i + a.len() + b.len(),
    )[x] == b[x] by {
        assert(s.subrange(i + a.len(), i + a.len() + b.len())[x] == s[i + a.len() + x]);
        assert(s.subrange(i, i + a.len() + b.len())[a.len() + x] == s[i + a.len() + x]);
        assert(s.subrange(i, i + a.len() + b.len())[a.len() + x] == (a + b)[a.len() + x]);
        assert((a + b)[a.len() + x] == b[x]);
    }
    assert(s.subrange(i + a.len(), i + a.len() + b.len()) =~= b);
}

/// Scanning name characters stops exactly at the end of an embedded name.
proof fn lemma_name_scan(s: Seq<char>, i: int, n: Seq<char>)
    requires
        0 <= i,
        i + n.len() <= s.len(),
        s.subrange(i, i + n.len()) == n,
        forall|x: int| 0 <= x < n.len() ==> is_name_char(n[x]),
        i + n.len() == s.len() || !is_name_char(s[i + n.len()]),
    ensures
        sp_name_end(s, i) == i + n.len(),
    decreases n.len(),
{
    if n.len() == 0 {
    } else {
        assert(s[i] == n[0]);
        assert(s.subrange(i + 1, i + n.len()) =~= n.drop_first());
        lemma_name_scan(s, i + 1, n.drop_first());
    }
}

/// Reading an embedded entity yields the character it stands for.
proof fn lemma_entity_inversion(s: Seq<char>, i: int, c: char)
    requires
        is_escaped_char(c),
        0 <= i,
        i + esc_char(c).len() <= s.len(),
        s.subrange(i, i + esc_char(c).len()) == esc_char(c),
    ensures
        sp_entity(s, i) == Parsed::Val(c, i + esc_char(c).len()),
{
    if c == '&' {
        assert(s.subrange(i, i + 5) =~= seq!['&', 'a', 'm', 'p', ';']);
    } else if c == '<' {
        assert(s.subrange(i, i + 4) =~= seq!['&', 'l', 't', ';']);
        assert(s[i + 1] == 'l');
        if i + 5 <= s.len() {
            assert(s.subrange(i, i + 5)[1] == 'l');
        }
    } else if c == '>' {
        assert(s.subrange(i, i + 4) =~= seq!['&', 'g', 't', ';']);
        assert(s[i + 1] == 'g');
        if i + 5 <= s.len() {
            assert(s.subrange(i, i + 5)[1] == 'g');
        }
    } else if c == '"' {
        assert(s.subrange(i, i + 6) =~= seq!['&', 'q', 'u', 'o', 't', ';']);
        assert(s[i + 1] == 'q');
        if i + 5 <= s.len() {
            assert(s.subrange(i, i + 5)[1] == 'q');
        }
        if i + 4 <= s.len() {
            assert(s.subrange(i, i + 4)[1] == 'q');
        }
    } else {
        assert(s.subrange(i, i + 6) =~= seq!['&', 'a', 'p', 'o', 's', ';']);
        assert(s[i + 1] == 'a');
        assert(s[i + 2] == 'p');
        if i + 5 <= s.len() {
            assert(s.subrange(i, i + 5)[2] == 'p');
        }
        if i + 4 <= s.len() {
            assert(s.subrange(i, i + 4)[1] == 'a');
            assert(s.subrange(i, i + 4)[2] == 'p');
        }
    }
}

/// Reading embedded escaped text up to a `<` yields the original text.
proof fn lemma_text_inversion(s: Seq<char>, i: int, t: Seq<char>)
    requires
        0 <= i,
        i + esc(t).len() < s.len(),
        s.subrange(i, i + esc(t).len()) == esc(t),
        s[i + esc(t).len()] == '<',
    ensures
        sp_text(s, i) == Parsed::Val(t, i + esc(t).len()),
    decreases t.len(),
{
    if t.len() == 0 {
        assert(t =~= Seq::<char>::empty());
    } else {
        let c = t[0];
        let rest = t.drop_first();
        assert(esc(t) == esc_char(c) + esc(rest));
        let el = esc_char(c).len() as int;
        lemma_window_split(s, i, esc_char(c), esc(rest));
        if is_escaped_char(c) {
            assert(s[i] == '&') by {
                assert(esc_char(c)[0] == '&');
                assert(s.subrange(i, i + el)[0] == s[i]);
            }
            lemma_entity_inversion(s, i, c);
            lemma_text_inversion(s, i + el, rest);
            assert(seq![c] + rest =~= t);
        } else {
            assert(esc_char(c) =~= seq![c]);
            assert(s[i] == c) by {
                assert(s.subrange(i, i + el)[0] == s[i]);
            }
            lemma_text_inversion(s, i + 1, rest);
            assert(seq![c] + rest =~= t);
        }
    }
}

/// Reading an embedded escaped attribute value up to its closing quote
/// yields the original value.
proof fn lemma_qval_inversion(s: Seq<char>, i: int, t: Seq<char>)
    requires
        0 <= i,
        i + esc(t).len() < s.len(),
        s.subrange(i, i + esc(t).len()) == esc(t),
        s[i + esc(t).len()] == '"',
    ensures
        sp_qval(s, i) == Parsed::Val(t, i + esc(t).len() + 1),
    decreases t.len(),
{
    if t.len() == 0 {
        assert(t =~= Seq::<char>::empty());
    } else {
        let c = t[0];
        let rest = t.drop_first();
        assert(esc(t) == esc_char(c) + esc(rest));
        let el = esc_char(c).len() as int;
        lemma_window_split(s, i, esc_char(c), esc(rest));
        if is_escaped_char(c) {
            assert(s[i] == '&') by {
                assert(esc_char(c)[0] == '&');
                assert(s.subrange(i, i + el)[0] == s[i]);
            }
            lemma_entity_inversion(s, i, c);
            lemma_qval_inversion(s, i + el, rest);
            assert(seq![c] + rest =~= t);
        } else {
            assert(esc_char(c) =~= seq![c]);
            assert(s[i] == c) by {
                assert(s.subrange(i, i + el)[0] == s[i]);
            }
            lemma_qval_inversion(s, i + 1, rest);
            assert(seq![c] + rest =~= t);
        }
    }
}

/// Reading an embedded serialized attribute list stops exactly at the tag's
/// closing character and yields the original attributes.
proof fn lemma_attrs_inversion(s: Seq<char>, i: int, a: Seq<(Seq<char>, Seq<char>)>)
    requires
        0 <= i,
        i + attrs_xml(a).len() < s.len(),
        s.subrange(i, i + attrs_xml(a).len()) == attrs_xml(a),
        forall|x: int| 0 <= x < a.len() ==> valid_name(#[trigger] a[x].0),
        !is_ws(s[i + attrs_xml(a).len()]),
        !is_name_char(s[i + attrs_xml(a).len()]),
    ensures
        sp_attrs(s, i) == Parsed::Val(a, i + attrs_xml(a).len()),
    decreases a.len(),
{
    if a.len() == 0 {
        assert(a =~= Seq::<(Seq<char>, Seq<char>)>::empty());
    } else {
        let k = a[0].0;
        let v = a[0].1;
        let rest = a.drop_first();
        assert(attrs_xml(a) == attr_xml(a[0]) + attrs_xml(rest));
        lemma_window_split(s, i, attr_xml(a[0]), attrs_xml(rest));
        let tail1 = k + (seq!['=', '"'] + (esc(v) + seq!['"']));
        assert(attr_xml(a[0]) =~= seq![' '] + tail1);
        lemma_window_split(s, i, seq![' '], tail1);
        let p1 = i + 1;
        assert(s[i] == ' ') by {
            assert(s.subrange(i, i + 1)[0] == s[i]);
        }
        let tail2 = seq!['=', '"'] + (esc(v) + seq!['"']);
        lemma_window_split(s, p1, k, tail2);
        let p2 = p1 + k.len();
        let tail3 = esc(v) + seq!['"'];
        lemma_window_split(s, p2, seq!['=', '"'], tail3);
        assert(s[p2] == '=' && s[p2 + 1] == '"') by {
            assert(s.subrange(p2, p2 + 2)[0] == s[p2]);
            assert(s.subrange(p2, p2 + 2)[1] == s[p2 + 1]);
        }
        let p3 = p2 + 2;
        lemma_window_split(s, p3, esc(v), seq!['"']);
        let p4 = p3 + esc(v).len();
        assert(s[p4] == '"') by {
            assert(s.subrange(p4, p4 + 1)[0] == s[p4]);
        }
        assert(s[p1] == k[0]) by {
            assert(s.subrange(p1, p2)[0] == s[p1]);
        }
        assert(valid_name(k));
        assert(is_name_char(k[0]));
        assert(sp_ws(s, p1) == p1);
        assert(sp_ws(s, i) == p1);
        lemma_name_scan(s, p1, k);
        lemma_qval_inversion(s, p3, v);
        let m = p4 + 1;
        assert forall|x: int| 0 <= x < rest.len() implies valid_name(
            #[trigger] rest[x].0,
        ) by {
            assert(rest[x] == a[x + 1]);
        }
        lemma_attrs_inversion(s, m, rest);
        assert(s.subrange(p1, p2) == k);
        assert(seq![(s.subrange(p1, p2), v)] + rest =~= a);
    }
}

/// The text pieces that parsing finds between serialized children: one
/// empty piece after each child.
pub open spec fn empties(n: nat) -> Seq<Seq<char>>
    decreases n,
{
    if n == 0 {
        Seq::empty()
    } else {
        seq![Seq::<char>::empty()] + empties((n - 1) as nat)
    }
}

proof fn lemma_empties(n: nat)
    ensures
        empties(n).len() == n,
        kept_texts(empties(n)) == Seq::<Seq<char>>::empty(),
    decreases n,
{
    if n > 0 {
        lemma_empties((n - 1) as nat);
        assert(empties(n).drop_first() =~= empties((n - 1) as nat));
        assert(kept_texts(empties(n)) =~= Seq::<Seq<char>>::empty());
    }
}

/// The wire form of any element starts with `<` followed by a name
/// character.
proof fn lemma_xml_head(v: ElemModel)
    requires
        serializable(v),
    ensures
        xml_of(v).len() >= 4,
        xml_of(v)[0] == '<',
        xml_of(v)[1] == v.name[0],
        is_name_char(xml_of(v)[1]),
{
    assert(xml_of(v)[0] == '<');
    assert(xml_of(v)[1] == v.name[0]);
}

/// Reading embedded serialized content — a leading text piece, the
/// serialized children, the close tag — yields those pieces and children.
#[verifier::rlimit(100)]
proof fn lemma_content_inversion(
    s: Seq<char>,
    p: int,
    name: Seq<char>,
    fp: Seq<char>,
    cs: Seq<ElemModel>,
)
    requires
        0 <= p,
        valid_name(name),
        serializable_all(cs),
        p + esc(fp).len() + children_xml(cs).len() + 3 + name.len() <= s.len(),
        s.subrange(p, p + esc(fp).len() + children_xml(cs).len() + 3 + name.len()) == esc(fp)
            + children_xml(cs) + seq!['<', '/'] + name + seq!['>'],
    ensures
        sp_content(s, p, name) == Parsed::Val(
            (seq![fp] + empties(cs.len()), cs),
            p + esc(fp).len() + children_xml(cs).len() + 3 + name.len(),
        ),
    decreases cs,
{
    let tail = children_xml(cs) + seq!['<', '/'] + name + seq!['>'];
    assert(esc(fp) + children_xml(cs) + seq!['<', '/'] + name + seq!['>'] =~= esc(fp) + (
    children_xml(cs) + (seq!['<', '/'] + (name + seq!['>']))));
    lemma_window_split(
        s,
        p,
        esc(fp),
        children_xml(cs) + (seq!['<', '/'] + (name + seq!['>'])),
    );
    let j = p + esc(fp).len();
    let ctail = children_xml(cs) + (seq!['<', '/'] + (name + seq!['>']));
    if cs.len() == 0 {
        assert(children_xml(cs) =~= Seq::<char>::empty());
        assert(ctail =~= seq!['<', '/'] + (name + seq!['>']));
        lemma_window_split(s, j, seq!['<', '/'], name + seq!['>']);
        assert(s[j] == '<' && s[j + 1] == '/') by {
            assert(s.subrange(j, j + 2)[0] == s[j]);
            assert(s.subrange(j, j + 2)[1] == s[j + 1]);
        }
        lemma_text_inversion(s, p, fp);
        lemma_window_split(s, j + 2, name, seq!['>']);
        assert(s[j + 2 + name.len()] == '>') by {
            assert(s.subrange(j + 2 + name.len(), j + 2 + name.len() + 1)[0] == s[j + 2
                + name.len()]);
        }
        assert(seq![fp] + empties(0) =~= seq![fp]);
        assert(sp_content(s, p, name) == Parsed::Val(
            (seq![fp], Seq::<ElemModel>::empty()),
            j + 2 + name.len() + 1,
        ));
        assert(cs =~= Seq::<ElemModel>::empty());
    } else {
        let c0 = cs[0];
        let rest = cs.drop_first();
        assert(children_xml(cs) == xml_of(c0) + children_xml(rest));
        assert(ctail =~= xml_of(c0) + (children_xml(rest) + (seq!['<', '/'] + (name + seq![
            '>',
        ]))));
        lemma_window_split(
            s,
            j,
            xml_of(c0),
            children_xml(rest) + (seq!['<', '/'] + (name + seq!['>'])),
        );
        lemma_xml_head(c0);
        assert(s[j] == '<' && s[j + 1] == c0.name[0]) by {
            assert(s.subrange(j, j + xml_of(c0).len())[0] == s[j]);
            assert(s.subrange(j, j + xml_of(c0).len())[1] == s[j + 1]);
        }
        lemma_text_inversion(s, p, fp);
        lemma_elem_inversion(s, j, c0);
        let e = j + xml_of(c0).len();
        assert(children_xml(rest) + (seq!['<', '/'] + (name + seq!['>'])) =~= esc(
            Seq::<char>::empty(),
        ) + children_xml(rest) + seq!['<', '/'] + name + seq!['>']);
        lemma_content_inversion(s, e, name, Seq::empty(), rest);
        assert(s[j + 1] != '/');
        assert(seq![fp] + (seq![Seq::<char>::empty()] + empties(rest.len())) =~= seq![fp]
            + empties(cs.len()));
        assert(seq![c0] + rest =~= cs);
    }
}

/// Reading an embedded serialized element yields exactly that element.
#[verifier::rlimit(100)]
proof fn lemma_elem_inversion(s: Seq<char>, i: int, v: ElemModel)
    requires
        0 <= i,
        serializable(v),
        i + xml_of(v).len() <= s.len(),
        s.subrange(i, i + xml_of(v).len()) == xml_of(v),
    ensures
        sp_elem(s, i) == Parsed::Val(v, i + xml_of(v).len()),
    decreases v,
{
    let nm = v.name;
    let p1 = i + 1;
    let p2 = p1 + nm.len();
    let p3 = p2 + attrs_xml(v.attrs).len();
    if v.children.len() == 0 && v.text is None {
        assert(xml_of(v) =~= seq!['<'] + (nm + (attrs_xml(v.attrs) + seq!['/', '>'])));
        lemma_window_split(s, i, seq!['<'], nm + (attrs_xml(v.attrs) + seq!['/', '>']));
        assert(s[i] == '<') by {
            assert(s.subrange(i, i + 1)[0] == s[i]);
        }
        lemma_window_split(s, p1, nm, attrs_xml(v.attrs) + seq!['/', '>']);
        lemma_window_split(s, p2, attrs_xml(v.attrs), seq!['/', '>']);
        assert(s[p3] == '/' && s[p3 + 1] == '>') by {
            assert(s.subrange(p3, p3 + 2)[0] == s[p3]);
            assert(s.subrange(p3, p3 + 2)[1] == s[p3 + 1]);
        }
        if v.attrs.len() > 0 {
            assert(attrs_xml(v.attrs)[0] == attr_xml(v.attrs[0])[0]);
            assert(attr_xml(v.attrs[0])[0] == ' ');
            assert(s[p2] == ' ') by {
                assert(s.subrange(p2, p3)[0] == s[p2]);
            }
        }
        lemma_name_scan(s, p1, nm);
        lemma_attrs_inversion(s, p2, v.attrs);
        assert(v.children =~= Seq::<ElemModel>::empty());
        assert(v =~= (ElemModel {
            name: s.subrange(p1, p2),
            attrs: v.attrs,
            children: Seq::<ElemModel>::empty(),
            text: Option::None,
        }));
    } else {
        let fp: Seq<char> = match v.text {
            Option::None => Seq::empty(),
            Option::Some(t) => t,
        };
        assert(crate::codec::text_xml(v.text) == esc(fp));
        assert(xml_of(v) =~= seq!['<'] + (nm + (attrs_xml(v.attrs) + (seq!['>'] + (esc(fp)
            + children_xml(v.children) + seq!['<', '/'] + nm + seq!['>'])))));
        lemma_window_split(
            s,
            i,
            seq!['<'],
            nm + (attrs_xml(v.attrs) + (seq!['>'] + (esc(fp) + children_xml(v.children) + seq![
                '<',
                '/',
            ] + nm + seq!['>']))),
        );
        assert(s[i] == '<') by {
            assert(s.subrange(i, i + 1)[0] == s[i]);
        }
        lemma_window_split(
            s,
            p1,
            nm,
            attrs_xml(v.attrs) + (seq!['>'] + (esc(fp) + children_xml(v.children) + seq![
                '<',
                '/',
            ] + nm + seq!['>'])),
        );
        lemma_window_split(
            s,
            p2,
            attrs_xml(v.attrs),
            seq!['>'] + (esc(fp) + children_xml(v.children) + seq!['<', '/'] + nm + seq!['>']),
        );
        lemma_window_split(
            s,
            p3,
            seq!['>'],
            esc(fp) + children_xml(v.children) + seq!['<', '/'] + nm + seq!['>'],
        );
        assert(s[p3] == '>') by {
            assert(s.subrange(p3, p3 + 1)[0] == s[p3]);
        }
        if v.attrs.len() > 0 {
            assert(attrs_xml(v.attrs)[0] == attr_xml(v.attrs[0])[0]);
            assert(attr_xml(v.attrs[0])[0] == ' ');
            assert(s[p2] == ' ') by {
                assert(s.subrange(p2, p3)[0] == s[p2]);
            }
        }
        lemma_name_scan(s, p1, nm);
        lemma_attrs_inversion(s, p2, v.attrs);
        lemma_content_inversion(s, p3 + 1, nm, fp, v.children);
        let nc = v.children.len();
        lemma_empties(nc);
        let pieces = seq![fp] + empties(nc);
        if nc == 0 {
            assert(pieces.drop_first() =~= Seq::<Seq<char>>::empty());
            assert(concat_texts(Seq::<Seq<char>>::empty()) == Seq::<char>::empty());
            assert(pieces[0] == fp);
            assert(concat_texts(pieces) =~= fp);
            assert(v.text == Option::Some(fp));
        } else {
            assert(pieces.drop_first() =~= empties(nc));
            match v.text {
                Option::None => {
                    assert(!meaningful(fp));
                    assert(kept_texts(pieces) =~= Seq::<Seq<char>>::empty());
                },
                Option::Some(t) => {
                    assert(meaningful(fp));
                    assert(kept_texts(pieces) =~= seq![fp] + kept_texts(empties(nc)));
                    assert(kept_texts(pieces) =~= seq![fp]);
                    assert(seq![fp].drop_first() =~= Seq::<Seq<char>>::empty());
                    assert(concat_texts(Seq::<Seq<char>>::empty()) == Seq::<char>::empty());
                    assert(concat_texts(seq![fp]) =~= fp);
                    assert(concat_texts(kept_texts(pieces)) =~= fp);
                },
            }
        }
        assert(assemble_text(pieces, nc) == v.text);
        assert(v =~= (ElemModel {
            name: s.subrange(p1, p2),
            attrs: v.attrs,
            children: v.children,
            text: assemble_text(pieces, nc),
        }));
    }
}


/// The round-trip law: parsing inverts serialization. `serialize` yields
/// `xml_of` of a tree's model and `parse` yields `sp_doc` of its input, so
/// for every serializable tree, parsing the serialized form gives back
/// exactly the original tree.
pub proof fn lemma_parse_inverts_serialize(v: ElemModel)
    requires
        serializable(v),
    ensures
        sp_doc(xml_of(v)) == Option::Some(v),
{
    let s = xml_of(v);
    assert(s.subrange(0, s.len() as int) =~= s);
    lemma_xml_head(v);
    lemma_elem_inversion(s, 0, v);
    assert(sp_ws(s, 0) == 0);
    assert(s[1] != '?');
    assert(sp_prologue(s, 0) == Parsed::Val((), 0));
    assert(sp_ws(s, s.len() as int) == s.len());
}

} // verus!
