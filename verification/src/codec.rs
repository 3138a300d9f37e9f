//! Serialization of an element tree to wire-format XML text.
//!
//! The wire form is pinned down by the spec functions here: a childless,
//! textless element is emitted self-closing, every other element carries its
//! escaped text (if any), its children in order, and a matching close tag.
//! Attribute values and text content are entity-escaped.

use vstd::prelude::*;

use crate::tree::{Element, ElemModel, lemma_model_child};

verus! {

broadcast use vstd::std_specs::vec::group_vec_axioms, vstd::seq::group_seq_axioms;

/// The characters that are always written as entities.
pub open spec fn is_escaped_char(c: char) -> bool {
    c == '&' || c == '<' || c == '>' || c == '"' || c == '\''
}

/// The entity (or the character itself) that stands for `c` in wire text.
pub open spec fn esc_char(c: char) -> Seq<char> {
    if c == '&' {
        seq!['&', 'a', 'm', 'p', ';']
    } else if c == '<' {
        seq!['&', 'l', 't', ';']
    } else if c == '>' {
        seq!['&', 'g', 't', ';']
    } else if c == '"' {
        seq!['&', 'q', 'u', 'o', 't', ';']
    } else if c == '\'' {
        seq!['&', 'a', 'p', 'o', 's', ';']
    } else {
        seq![c]
    }
}

/// Entity-escaping of a whole text.
pub open spec fn esc(s: Seq<char>) -> Seq<char>
    decreases s.len(),
{
    if s.len() == 0 {
        Seq::empty()
    } else {
        esc_char(s[0]) + esc(s.drop_first())
    }
}

/// One serialized attribute, with its leading separator space.
pub open spec fn attr_xml(a: (Seq<char>, Seq<char>)) -> Seq<char> {
    seq![' '] + a.0 + seq!['=', '"'] + esc(a.1) + seq!['"']
}

/// The serialized attribute list.
pub open spec fn attrs_xml(attrs: Seq<(Seq<char>, Seq<char>)>) -> Seq<char>
    decreases attrs.len(),
{
    if attrs.len() == 0 {
        Seq::empty()
    } else {
        attr_xml(attrs[0]) + attrs_xml(attrs.drop_first())
    }
}

/// The serialized text content; absent text contributes nothing.
pub open spec fn text_xml(t: Option<Seq<char>>) -> Seq<char> {
    match t {
        Option::None => Seq::empty(),
        Option::Some(s) => esc(s),
    }
}

/// The wire form of a whole tree.
pub open spec fn xml_of(e: ElemModel) -> Seq<char>
    decreases e,
{
    if e.children.len() == 0 && e.text is None {
        seq!['<'] + e.name + attrs_xml(e.attrs) + seq!['/', '>']
    } else {
        seq!['<'] + e.name + attrs_xml(e.attrs) + seq!['>'] + text_xml(e.text) + children_xml(
            e.children,
        ) + seq!['<', '/'] + e.name + seq!['>']
    }
}

/// The wire form of a list of sibling trees, in order.
pub open spec fn children_xml(cs: Seq<ElemModel>) -> Seq<char>
    decreases cs,
{
    if cs.len() == 0 {
        Seq::empty()
    } else {
        xml_of(cs[0]) + children_xml(cs.drop_first())
    }
}

/// Escaping distributes over concatenation.
pub proof fn lemma_esc_concat(a: Seq<char>, b: Seq<char>)
    ensures
        esc(a + b) == esc(a) + esc(b),
    decreases a.len(),
{
    if a.len() == 0 {
        assert(a + b =~= b);
        assert(esc(a) + esc(b) =~= esc(b));
    } else {
        assert((a + b).drop_first() =~= a.drop_first() + b);
        lemma_esc_concat(a.drop_first(), b);
        assert((a + b)[0] == a[0]);
        assert(esc(a + b) =~= esc(a) + esc(b));
    }
}

/// A text without characters that need escaping is its own escape.
pub proof fn lemma_esc_plain(s: Seq<char>)
    requires
        forall|i: int| 0 <= i < s.len() ==> !is_escaped_char(s[i]),
    ensures
        esc(s) == s,
    decreases s.len(),
{
    if s.len() > 0 {
        lemma_esc_plain(s.drop_first());
        assert(esc_char(s[0]) == seq![s[0]]);
        assert(esc(s) =~= s);
    }
}

proof fn lemma_esc_one(c: char)
    ensures
        esc(seq![c]) == esc_char(c),
{
    assert(seq![c].drop_first() =~= Seq::<char>::empty());
    assert(esc(Seq::<char>::empty()) == Seq::<char>::empty());
    assert(esc(seq![c]) =~= esc_char(c));
}

/// Appends the entity standing for one escaped character.
#[verifier::loop_isolation(false)]
fn push_entity(out: &mut String, c: char)
    requires
        is_escaped_char(c),
    ensures
        final(out)@ == old(out)@ + esc_char(c),
{
    if c == '&' {
        out.append("&amp;");
        proof {
            reveal_strlit("&amp;");
            assert(out@ =~= old(out)@ + esc_char(c));
        }
    } else if c == '<' {
        out.append("&lt;");
        proof {
            reveal_strlit("&lt;");
            assert(out@ =~= old(out)@ + esc_char(c));
        }
    } else if c == '>' {
        out.append("&gt;");
        proof {
            reveal_strlit("&gt;");
            assert(out@ =~= old(out)@ + esc_char(c));
        }
    } else if c == '"' {
        out.append("&quot;");
        proof {
            reveal_strlit("&quot;");
            assert(out@ =~= old(out)@ + esc_char(c));
        }
    } else {
        out.append("&apos;");
        proof {
            reveal_strlit("&apos;");
            assert(out@ =~= old(out)@ + esc_char(c));
        }
    }
}

/// Appends the entity-escaped form of `s`.
#[verifier::loop_isolation(false)]
fn push_escaped(out: &mut String, s: &str)
    ensures
        final(out)@ == old(out)@ + esc(s@),
{
    let n = s.unicode_len();
    let mut rs: usize = 0;
    let mut i: usize = 0;
    while i < n
        invariant
            n == s@.len(),
            rs <= i <= n,
            out@ == old(out)@ + esc(s@.take(rs as int)),
            forall|j: int| rs <= j < i ==> !is_escaped_char(s@[j]),
        decreases n - i,
    {
        let c = s.get_char(i);
        if c == '&' || c == '<' || c == '>' || c == '"' || c == '\'' {
            out.append(s.substring_char(rs, i));
            proof {
                assert(s@.take(i as int) =~= s@.take(rs as int) + s@.subrange(
                    rs as int,
                    i as int,
                ));
                lemma_esc_concat(s@.take(rs as int), s@.subrange(rs as int, i as int));
                lemma_esc_plain(s@.subrange(rs as int, i as int));
            }
            push_entity(out, c);
            proof {
                assert(s@.take(i as int + 1) =~= s@.take(i as int) + seq![s@[i as int]]);
                lemma_esc_concat(s@.take(i as int), seq![s@[i as int]]);
                lemma_esc_one(s@[i as int]);
            }
            rs = i + 1;
        }
        i += 1;
    }
    out.append(s.substring_char(rs, n));
    proof {
        assert(s@.take(n as int) =~= s@);
        assert(s@ =~= s@.take(rs as int) + s@.subrange(rs as int, n as int));
        lemma_esc_concat(s@.take(rs as int), s@.subrange(rs as int, n as int));
        lemma_esc_plain(s@.subrange(rs as int, n as int));
    }
}

/// The models of a list of elements, in order.
pub open spec fn seq_models(cs: Seq<Element>) -> Seq<ElemModel> {
    cs.map_values(|c: Element| c.model())
}

/// The models of a list of attribute pairs, in order.
pub open spec fn pair_models(ps: Seq<(String, String)>) -> Seq<(Seq<char>, Seq<char>)> {
    ps.map_values(|p: (String, String)| (p.0@, p.1@))
}

#[verifier::loop_isolation(false)]
fn write_attrs(av: &Vec<(String, String)>, out: &mut String)
    ensures
        final(out)@ == old(out)@ + attrs_xml(pair_models(av@)),
{
    let n = av.len();
    let mut i: usize = 0;
    proof {
        assert(pair_models(av@).skip(0) =~= pair_models(av@));
    }
    while i < n
        invariant
            n == av@.len(),
            i <= n,
            out@ + attrs_xml(pair_models(av@).skip(i as int)) == old(out)@ + attrs_xml(
                pair_models(av@),
            ),
        decreases n - i,
    {
        let ghost pre = out@;
        out.append(" ");
        out.append(av[i].0.as_str());
        out.append("=\"");
        push_escaped(out, av[i].1.as_str());
        out.append("\"");
        proof {
            reveal_strlit(" ");
            reveal_strlit("=\"");
            reveal_strlit("\"");
            let m = pair_models(av@);
            assert(out@ =~= pre + attr_xml(m[i as int]));
            assert(m.skip(i as int).drop_first() =~= m.skip(i as int + 1));
            assert(m.skip(i as int)[0] == m[i as int]);
            assert(pre + (attr_xml(m[i as int]) + attrs_xml(m.skip(i as int + 1))) =~= (pre
                + attr_xml(m[i as int])) + attrs_xml(m.skip(i as int + 1)));
        }
        i += 1;
    }
    proof {
        assert(attrs_xml(pair_models(av@).skip(n as int)) =~= Seq::<char>::empty());
        assert(out@ + attrs_xml(pair_models(av@).skip(n as int)) =~= out@);
    }
}

fn write_elem(e: &Element, out: &mut String)
    ensures
        final(out)@ == old(out)@ + xml_of(e@),
    decreases e, 0nat,
{
    broadcast use lemma_model_child;

    out.append("<");
    out.append(e.name.as_str());
    write_attrs(&e.attributes, out);
    proof {
        reveal_strlit("<");
        assert(pair_models(e.attributes@) =~= e@.attrs);
    }
    if e.children.len() == 0 && e.text.is_none() {
        out.append("/>");
        proof {
            reveal_strlit("/>");
            assert(out@ =~= old(out)@ + xml_of(e@));
        }
    } else {
        out.append(">");
        proof {
            reveal_strlit(">");
        }
        match &e.text {
            Some(t) => {
                push_escaped(out, t.as_str());
            },
            None => {},
        }
        write_children(&e.children, out);
        out.append("</");
        out.append(e.name.as_str());
        out.append(">");
        proof {
            reveal_strlit("</");
            assert(seq_models(e.children@) =~= e@.children);
            assert(out@ =~= old(out)@ + xml_of(e@));
        }
    }
}

#[verifier::loop_isolation(false)]
fn write_children(cs: &Vec<Element>, out: &mut String)
    ensures
        final(out)@ == old(out)@ + children_xml(seq_models(cs@)),
    decreases cs, 1nat,
{
    let n = cs.len();
    let mut i: usize = 0;
    proof {
        assert(seq_models(cs@).skip(0) =~= seq_models(cs@));
    }
    while i < n
        invariant
            n == cs@.len(),
            i <= n,
            out@ + children_xml(seq_models(cs@).skip(i as int)) == old(out)@ + children_xml(
                seq_models(cs@),
            ),
        decreases n - i,
    {
        let ghost pre = out@;
        write_elem(&cs[i], out);
        proof {
            let m = seq_models(cs@);
            assert(m.skip(i as int).drop_first() =~= m.skip(i as int + 1));
            assert(m.skip(i as int)[0] == m[i as int]);
            assert(pre + (xml_of(m[i as int]) + children_xml(m.skip(i as int + 1))) =~= (pre
                + xml_of(m[i as int])) + children_xml(m.skip(i as int + 1)));
        }
        i += 1;
    }
    proof {
        assert(children_xml(seq_models(cs@).skip(n as int)) =~= Seq::<char>::empty());
        assert(out@ + children_xml(seq_models(cs@).skip(n as int)) =~= out@);
    }
}

/// Emits well-formed XML text for the given tree; attribute values and text
/// content are entity-escaped.
pub fn serialize(e: &Element) -> (r: String)
    ensures
        r@ == xml_of(e@),
{
    let mut out = String::new();
    write_elem(e, &mut out);
    proof {
        assert(Seq::<char>::empty() + xml_of(e@) =~= xml_of(e@));
    }
    out
}

} // verus!
