//! The element tree: an owned representation of an XML document fragment,
//! with an append-only builder API and safe path navigation.

use vstd::prelude::*;

use crate::errors::RpcError;
use crate::text::str_eq;

verus! {

broadcast use vstd::std_specs::vec::group_vec_axioms, vstd::seq::group_seq_axioms;

/// Mathematical model of an element: tag name, ordered attributes, ordered
/// child elements and optional text content.
#[verifier::ext_equal]
pub ghost struct ElemModel {
    pub name: Seq<char>,
    pub attrs: Seq<(Seq<char>, Seq<char>)>,
    pub children: Seq<ElemModel>,
    pub text: Option<Seq<char>>,
}

/// A node in an XML tree. Each element exclusively owns its children, so the
/// tree is acyclic.
#[derive(Debug)]
pub struct Element {
    pub name: String,
    pub attributes: Vec<(String, String)>,
    pub children: Vec<Element>,
    pub text: Option<String>,
}

impl Element {
    /// The abstract value of the whole tree rooted at this element.
    pub open spec fn model(self) -> ElemModel
        decreases self,
    {
        ElemModel {
            name: self.name@,
            attrs: Seq::new(
                self.attributes@.len(),
                |i: int| (self.attributes@[i].0@, self.attributes@[i].1@),
            ),
            children: Seq::new(
                self.children@.len(),
                |i: int|
                    if 0 <= i < self.children@.len() {
                        self.children@[i].model()
                    } else {
                        vstd::pervasive::arbitrary()
                    },
            ),
            text: match self.text {
                Option::None => Option::None,
                Option::Some(t) => Option::Some(t@),
            },
        }
    }
}

/// Bridges one level of the recursive model: the model of child `i` of an
/// element is the child's own model.
pub broadcast proof fn lemma_model_child(e: Element, i: int)
    requires
        0 <= i < e.children@.len(),
    ensures
        #[trigger] e.model().children[i] == e.children@[i].model(),
{
}

impl View for Element {
    type V = ElemModel;

    open spec fn view(&self) -> ElemModel {
        self.model()
    }
}

/// Replaces the value of the first attribute whose key is `k`, or appends the
/// pair when no attribute has that key.
pub open spec fn attr_upsert(
    attrs: Seq<(Seq<char>, Seq<char>)>,
    k: Seq<char>,
    v: Seq<char>,
) -> Seq<(Seq<char>, Seq<char>)>
    decreases attrs.len(),
{
    if attrs.len() == 0 {
        seq![(k, v)]
    } else if attrs[0].0 == k {
        seq![(k, v)] + attrs.drop_first()
    } else {
        seq![attrs[0]] + attr_upsert(attrs.drop_first(), k, v)
    }
}

proof fn lemma_attr_upsert_absent(attrs: Seq<(Seq<char>, Seq<char>)>, k: Seq<char>, v: Seq<char>)
    requires
        forall|i: int| 0 <= i < attrs.len() ==> attrs[i].0 != k,
    ensures
        attr_upsert(attrs, k, v) == attrs.push((k, v)),
    decreases attrs.len(),
{
    if attrs.len() == 0 {
        assert(attr_upsert(attrs, k, v) =~= attrs.push((k, v)));
    } else {
        lemma_attr_upsert_absent(attrs.drop_first(), k, v);
        assert(attr_upsert(attrs, k, v) =~= attrs.push((k, v)));
    }
}

proof fn lemma_attr_upsert_found(
    attrs: Seq<(Seq<char>, Seq<char>)>,
    k: Seq<char>,
    v: Seq<char>,
    m: int,
)
    requires
        0 <= m < attrs.len(),
        attrs[m].0 == k,
        forall|i: int| 0 <= i < m ==> attrs[i].0 != k,
    ensures
        attr_upsert(attrs, k, v) == attrs.update(m, (k, v)),
    decreases m,
{
    if m == 0 {
        assert(attr_upsert(attrs, k, v) =~= attrs.update(0, (k, v)));
    } else {
        lemma_attr_upsert_found(attrs.drop_first(), k, v, m - 1);
        assert(attr_upsert(attrs, k, v) =~= attrs.update(m, (k, v)));
    }
}

impl Element {
    /// A fresh element: the given tag name, no attributes, no children, no
    /// text.
    pub fn node(name: &str) -> (r: Element)
        ensures
            r@.name == name@,
            r@.attrs == Seq::<(Seq<char>, Seq<char>)>::empty(),
            r@.children == Seq::<ElemModel>::empty(),
            r@.text is None,
    {
        let e = Element {
            name: name.to_owned(),
            attributes: Vec::new(),
            children: Vec::new(),
            text: None,
        };
        proof {
            assert(e@.attrs =~= Seq::<(Seq<char>, Seq<char>)>::empty());
            assert(e@.children =~= Seq::<ElemModel>::empty());
        }
        e
    }

    /// Returns this element with its text content set to `value`.
    pub fn with_text(self, value: &str) -> (r: Element)
        ensures
            r@.name == self@.name,
            r@.attrs == self@.attrs,
            r@.children == self@.children,
            r@.text == Some(value@),
    {
        let ghost m = self@;
        let e = Element { text: Some(value.to_owned()), ..self };
        proof {
            assert(e@.attrs =~= m.attrs);
            assert(e@.children =~= m.children);
        }
        e
    }

    /// Appends the given elements, in order, to this element's children.
    pub fn with_children(self, more: Vec<Element>) -> (r: Element)
        ensures
            r@.name == self@.name,
            r@.attrs == self@.attrs,
            r@.text == self@.text,
            r@.children == self@.children + more@.map_values(|c: Element| c.model()),
    {
        let ghost m = self@;
        let ghost more0 = more@;
        let mut e = self;
        let mut more = more;
        e.children.append(&mut more);
        proof {
            assert(e@.attrs =~= m.attrs);
            assert(e@.children =~= m.children + more0.map_values(|c: Element| c.model()));
        }
        e
    }

    /// Inserts an attribute, overwriting the value of the first attribute
    /// with the same key if one is present.
    pub fn with_attribute(self, key: &str, value: &str) -> (r: Element)
        ensures
            r@.name == self@.name,
            r@.children == self@.children,
            r@.text == self@.text,
            r@.attrs == attr_upsert(self@.attrs, key@, value@),
    {
        let ghost m = self@;
        let mut e = self;
        let n = e.attributes.len();
        let mut idx: usize = n;
        let mut i: usize = 0;
        while i < n
            invariant
                n == e.attributes.len(),
                e@.attrs.len() == n,
                i <= n,
                idx <= n,
                idx == n ==> forall|j: int| 0 <= j < i ==> e@.attrs[j].0 != key@,
                idx < n ==> e@.attrs[idx as int].0 == key@ && forall|j: int|
                    0 <= j < idx ==> e@.attrs[j].0 != key@,
            decreases n - i,
        {
            if idx == n && str_eq(e.attributes[i].0.as_str(), key) {
                idx = i;
            }
            i += 1;
        }
        if idx < n {
            proof {
                lemma_attr_upsert_found(m.attrs, key@, value@, idx as int);
            }
            e.attributes[idx] = (key.to_owned(), value.to_owned());
            proof {
                assert(e@.attrs =~= m.attrs.update(idx as int, (key@, value@)));
                assert(e@.children =~= m.children);
            }
            e
        } else {
            proof {
                lemma_attr_upsert_absent(m.attrs, key@, value@);
            }
            e.attributes.push((key.to_owned(), value.to_owned()));
            proof {
                assert(e@.attrs =~= m.attrs.push((key@, value@)));
                assert(e@.children =~= m.children);
            }
            e
        }
    }
}

/// The first child with the given name, in document order.
pub open spec fn first_match(cs: Seq<ElemModel>, name: Seq<char>) -> Option<ElemModel>
    decreases cs.len(),
{
    if cs.len() == 0 {
        Option::None
    } else if cs[0].name == name {
        Option::Some(cs[0])
    } else {
        first_match(cs.drop_first(), name)
    }
}

/// The names of the given elements, in order.
pub open spec fn child_names(cs: Seq<ElemModel>) -> Seq<Seq<char>> {
    cs.map_values(|c: ElemModel| c.name)
}

/// Structural navigation: follow the path one segment at a time, always into
/// the first child carrying the segment's name; report the segment that was
/// not found together with the names that were available there.
pub open spec fn spec_descend(e: ElemModel, path: Seq<Seq<char>>) -> Result<
    ElemModel,
    (Seq<char>, Seq<Seq<char>>),
>
    decreases path.len(),
{
    if path.len() == 0 {
        Result::Ok(e)
    } else {
        match first_match(e.children, path[0]) {
            Option::Some(c) => spec_descend(c, path.drop_first()),
            Option::None => Result::Err((path[0], child_names(e.children))),
        }
    }
}

proof fn lemma_first_match_at(cs: Seq<ElemModel>, name: Seq<char>, m: int)
    requires
        0 <= m < cs.len(),
        cs[m].name == name,
        forall|j: int| 0 <= j < m ==> cs[j].name != name,
    ensures
        first_match(cs, name) == Option::Some(cs[m]),
    decreases m,
{
    if m > 0 {
        lemma_first_match_at(cs.drop_first(), name, m - 1);
    }
}

proof fn lemma_first_match_none(cs: Seq<ElemModel>, name: Seq<char>)
    requires
        forall|j: int| 0 <= j < cs.len() ==> cs[j].name != name,
    ensures
        first_match(cs, name) is None,
    decreases cs.len(),
{
    if cs.len() > 0 {
        lemma_first_match_none(cs.drop_first(), name);
    }
}

/// The first child whose local name (what follows any namespace prefix) is
/// `nm`, in document order.
pub open spec fn first_local(cs: Seq<ElemModel>, nm: Seq<char>) -> Option<ElemModel>
    decreases cs.len(),
{
    if cs.len() == 0 {
        Option::None
    } else if crate::text::local_of(cs[0].name) == nm {
        Option::Some(cs[0])
    } else {
        first_local(cs.drop_first(), nm)
    }
}

proof fn lemma_first_local_at(cs: Seq<ElemModel>, nm: Seq<char>, m: int)
    requires
        0 <= m < cs.len(),
        crate::text::local_of(cs[m].name) == nm,
        forall|j: int| 0 <= j < m ==> crate::text::local_of(cs[j].name) != nm,
    ensures
        first_local(cs, nm) == Option::Some(cs[m]),
    decreases m,
{
    if m > 0 {
        lemma_first_local_at(cs.drop_first(), nm, m - 1);
    }
}

proof fn lemma_first_local_none(cs: Seq<ElemModel>, nm: Seq<char>)
    requires
        forall|j: int| 0 <= j < cs.len() ==> crate::text::local_of(cs[j].name) != nm,
    ensures
        first_local(cs, nm) is None,
    decreases cs.len(),
{
    if cs.len() > 0 {
        lemma_first_local_none(cs.drop_first(), nm);
    }
}

impl Element {
    /// The index of the first child whose local name is `nm`.
    #[verifier::loop_isolation(false)]
    pub fn find_local(&self, nm: &str) -> (r: Option<usize>)
        ensures
            match r {
                Option::None => first_local(self@.children, nm@) is None,
                Option::Some(ix) => ix < self.children@.len() && first_local(self@.children, nm@)
                    == Option::Some(self@.children[ix as int]),
            },
    {
        broadcast use lemma_model_child;

        let n = self.children.len();
        let mut i: usize = 0;
        while i < n
            invariant
                n == self.children@.len(),
                i <= n,
                forall|j: int|
                    0 <= j < i ==> crate::text::local_of(self@.children[j].name) != nm@,
            decreases n - i,
        {
            if str_eq(crate::text::local_part(self.children[i].name.as_str()), nm) {
                proof {
                    lemma_first_local_at(self@.children, nm@, i as int);
                }
                return Some(i);
            }
            i += 1;
        }
        proof {
            lemma_first_local_none(self@.children, nm@);
        }
        None
    }
}

impl Element {
    /// The names of this element's children, in order.
    #[verifier::loop_isolation(false)]
    pub fn child_name_list(&self) -> (r: Vec<String>)
        ensures
            r@.map_values(|t: String| t@) == child_names(self@.children),
    {
        broadcast use lemma_model_child;

        let n = self.children.len();
        let mut out: Vec<String> = Vec::new();
        let mut i: usize = 0;
        while i < n
            invariant
                n == self.children@.len(),
                i <= n,
                out@.len() == i,
                forall|j: int| 0 <= j < i ==> out@[j]@ == self@.children[j].name,
            decreases n - i,
        {
            out.push(self.children[i].name.clone());
            i += 1;
        }
        proof {
            assert(out@.map_values(|t: String| t@) =~= child_names(self@.children));
        }
        out
    }
}

impl Element {
    /// Starting at this element, repeatedly move to the first child whose
    /// name equals the next path segment. An empty path returns this element
    /// unchanged. When a segment matches no child, the result is
    /// `MissingElement` naming that segment and the sibling names that were
    /// available.
    #[verifier::loop_isolation(false)]
    pub fn descend<'a>(&'a self, path: &[&str]) -> (r: Result<&'a Element, RpcError>)
        ensures
            ({
                let sr = spec_descend(self@, path@.map_values(|s: &str| s@));
                match r {
                    Result::Ok(e) => sr matches Result::Ok(me) && e@ == me,
                    Result::Err(err) => sr matches Result::Err(em) && err matches
                        RpcError::MissingElement { segment, available } && segment@ == em.0
                        && available@.map_values(|s: String| s@) == em.1,
                }
            }),
    {
        broadcast use lemma_model_child;

        let ghost p = path@.map_values(|s: &str| s@);
        let mut cur: &Element = self;
        let mut k: usize = 0;
        proof {
            assert(p.skip(0) =~= p);
        }
        while k < path.len()
            invariant
                k <= path.len(),
                spec_descend(self@, p) == spec_descend(cur@, p.skip(k as int)),
            decreases path.len() - k,
        {
            let seg: &str = path[k];
            let n = cur.children.len();
            let mut idx: usize = n;
            let mut i: usize = 0;
            while i < n
                invariant
                    n == cur@.children.len(),
                    i <= n,
                    idx <= n,
                    idx == n ==> forall|j: int| 0 <= j < i ==> cur@.children[j].name != seg@,
                    idx < n ==> cur@.children[idx as int].name == seg@ && forall|j: int|
                        0 <= j < idx ==> cur@.children[j].name != seg@,
                decreases n - i,
            {
                if idx == n && str_eq(cur.children[i].name.as_str(), seg) {
                    idx = i;
                }
                i += 1;
            }
            proof {
                assert(p.skip(k as int)[0] == p[k as int]);
            }
            if idx < n {
                proof {
                    lemma_first_match_at(cur@.children, seg@, idx as int);
                    assert(p.skip(k as int).drop_first() =~= p.skip(k as int + 1));
                }
                cur = &cur.children[idx];
            } else {
                proof {
                    lemma_first_match_none(cur@.children, seg@);
                }
                let mut available: Vec<String> = Vec::new();
                let mut j: usize = 0;
                while j < n
                    invariant
                        n == cur@.children.len(),
                        j <= n,
                        available@.len() == j,
                        forall|t: int| 0 <= t < j ==> available@[t]@ == cur@.children[t].name,
                    decreases n - j,
                {
                    available.push(cur.children[j].name.clone());
                    j += 1;
                }
                proof {
                    assert(available@.map_values(|s: String| s@) =~= child_names(cur@.children));
                }
                return Result::Err(
                    RpcError::MissingElement { segment: seg.to_owned(), available },
                );
            }
            k += 1;
        }
        proof {
            assert(p.skip(k as int) =~= Seq::<Seq<char>>::empty());
        }
        Result::Ok(cur)
    }

    /// A deep copy of the whole tree.
    #[verifier::loop_isolation(false)]
    pub fn duplicate(&self) -> (r: Element)
        ensures
            r@ == self@,
        decreases self,
    {
        broadcast use lemma_model_child;

        let mut attributes: Vec<(String, String)> = Vec::new();
        let na = self.attributes.len();
        let mut i: usize = 0;
        while i < na
            invariant
                na == self.attributes.len(),
                i <= na,
                attributes@.len() == i,
                forall|j: int| 0 <= j < i ==> attributes@[j] == self.attributes@[j],
            decreases na - i,
        {
            attributes.push((self.attributes[i].0.clone(), self.attributes[i].1.clone()));
            i += 1;
        }
        let mut children: Vec<Element> = Vec::new();
        let nc = self.children.len();
        let mut c: usize = 0;
        while c < nc
            invariant
                nc == self.children.len(),
                c <= nc,
                children@.len() == c,
                forall|j: int| 0 <= j < c ==> children@[j].model() == self@.children[j],
            decreases nc - c,
        {
            children.push(self.children[c].duplicate());
            c += 1;
        }
        let r = Element {
            name: self.name.clone(),
            attributes,
            children,
            text: match &self.text {
                Some(t) => Some(t.clone()),
                None => None,
            },
        };
        proof {
            assert(r@.attrs =~= self@.attrs);
            assert(r@.children =~= self@.children);
            assert(r@ =~= self@);
        }
        r
    }

    /// Structural equality of two trees: equal names, equal attribute lists
    /// in order, equal text (absent and empty are distinct), and pairwise
    /// equal children in order.
    #[verifier::loop_isolation(false)]
    pub fn like(&self, other: &Element) -> (r: bool)
        ensures
            r == (self@ == other@),
        decreases self,
    {
        broadcast use lemma_model_child;

        if !str_eq(self.name.as_str(), other.name.as_str()) {
            proof {
                assert(self@.name != other@.name);
            }
            return false;
        }
        match (&self.text, &other.text) {
            (Some(a), Some(b)) => {
                if !str_eq(a.as_str(), b.as_str()) {
                    proof {
                        assert(self@.text != other@.text);
                    }
                    return false;
                }
            },
            (None, None) => {},
            _ => {
                return false;
            },
        }
        if self.attributes.len() != other.attributes.len() {
            proof {
                assert(self@.attrs.len() != other@.attrs.len());
            }
            return false;
        }
        let na = self.attributes.len();
        let mut i: usize = 0;
        while i < na
            invariant
                na == self.attributes.len(),
                i <= na,
                forall|j: int| 0 <= j < i ==> self@.attrs[j] == other@.attrs[j],
            decreases na - i,
        {
            if !str_eq(self.attributes[i].0.as_str(), other.attributes[i].0.as_str()) {
                proof {
                    assert(self@.attrs[i as int] != other@.attrs[i as int]);
                }
                return false;
            }
            if !str_eq(self.attributes[i].1.as_str(), other.attributes[i].1.as_str()) {
                proof {
                    assert(self@.attrs[i as int] != other@.attrs[i as int]);
                }
                return false;
            }
            i += 1;
        }
        if self.children.len() != other.children.len() {
            proof {
                assert(self@.children.len() != other@.children.len());
            }
            return false;
        }
        let nc = self.children.len();
        let mut c: usize = 0;
        while c < nc
            invariant
                nc == self.children.len(),
                c <= nc,
                forall|j: int| 0 <= j < c ==> self@.children[j] == other@.children[j],
            decreases nc - c,
        {
            if !self.children[c].like(&other.children[c]) {
                proof {
                    assert(self@.children[c as int] != other@.children[c as int]);
                }
                return false;
            }
            c += 1;
        }
        proof {
            assert(self@.attrs =~= other@.attrs);
            assert(self@.children =~= other@.children);
            assert(self@ =~= other@);
        }
        true
    }
}

} // verus!
