//! WSDL operation discovery: walking a parsed service description to build
//! the operation-name to endpoint table, and resolving operations against
//! it.
//!
//! Each `operation` declaration under a `binding` contributes one entry; the
//! endpoint URL is the `location` attribute of the service's `address`
//! element; the SOAP action, where declared, is the `soapAction` attribute
//! of the operation's own nested `operation` binding info. Names are matched
//! by their local part, so namespace prefixes do not matter.

use vstd::prelude::*;

use crate::errors::RpcError;
use crate::parser::{parse, sp_doc};
use crate::text::{local_of, local_part, str_eq};
use crate::tree::{first_local, lemma_model_child, ElemModel, Element};

verus! {

broadcast use vstd::std_specs::vec::group_vec_axioms, vstd::seq::group_seq_axioms;

/// Where one operation is reachable: its endpoint URL and, where declared,
/// the SOAP action string to send with it.
#[derive(Debug)]
pub struct OperationBinding {
    pub url: String,
    pub soap_action: Option<String>,
}

/// The discovered operation table.
#[derive(Debug)]
pub struct Wsdl {
    pub operations: Vec<(String, OperationBinding)>,
}

/// Model of one table entry.
pub ghost struct OpModel {
    pub name: Seq<char>,
    pub url: Seq<char>,
    pub action: Option<Seq<char>>,
}

/// The value of the first attribute with key `k`.
pub open spec fn attr_value(attrs: Seq<(Seq<char>, Seq<char>)>, k: Seq<char>) -> Option<Seq<char>>
    decreases attrs.len(),
{
    if attrs.len() == 0 {
        Option::None
    } else if attrs[0].0 == k {
        Option::Some(attrs[0].1)
    } else {
        attr_value(attrs.drop_first(), k)
    }
}

proof fn lemma_attr_value_at(attrs: Seq<(Seq<char>, Seq<char>)>, k: Seq<char>, m: int)
    requires
        0 <= m < attrs.len(),
        attrs[m].0 == k,
        forall|j: int| 0 <= j < m ==> attrs[j].0 != k,
    ensures
        attr_value(attrs, k) == Option::Some(attrs[m].1),
    decreases m,
{
    if m > 0 {
        lemma_attr_value_at(attrs.drop_first(), k, m - 1);
    }
}

proof fn lemma_attr_value_none(attrs: Seq<(Seq<char>, Seq<char>)>, k: Seq<char>)
    requires
        forall|j: int| 0 <= j < attrs.len() ==> attrs[j].0 != k,
    ensures
        attr_value(attrs, k) is None,
    decreases attrs.len(),
{
    if attrs.len() > 0 {
        lemma_attr_value_none(attrs.drop_first(), k);
    }
}

/// Reads the first attribute with key `k` of this element.
#[verifier::loop_isolation(false)]
fn attr_of(e: &Element, k: &str) -> (r: Option<String>)
    ensures
        match r {
            Option::Some(v) => attr_value(e@.attrs, k@) == Option::Some(v@),
            Option::None => attr_value(e@.attrs, k@) is None,
        },
{
    let n = e.attributes.len();
    let mut i: usize = 0;
    while i < n
        invariant
            n == e.attributes@.len(),
            i <= n,
            forall|j: int| 0 <= j < i ==> e@.attrs[j].0 != k@,
        decreases n - i,
    {
        if str_eq(e.attributes[i].0.as_str(), k) {
            proof {
                lemma_attr_value_at(e@.attrs, k@, i as int);
            }
            return Some(e.attributes[i].1.clone());
        }
        i += 1;
    }
    proof {
        lemma_attr_value_none(e@.attrs, k@);
    }
    None
}

pub open spec fn address_name() -> Seq<char> {
    seq!['a', 'd', 'd', 'r', 'e', 's', 's']
}

pub open spec fn location_key() -> Seq<char> {
    seq!['l', 'o', 'c', 'a', 't', 'i', 'o', 'n']
}

pub open spec fn binding_name() -> Seq<char> {
    seq!['b', 'i', 'n', 'd', 'i', 'n', 'g']
}

pub open spec fn operation_name() -> Seq<char> {
    seq!['o', 'p', 'e', 'r', 'a', 't', 'i', 'o', 'n']
}

pub open spec fn name_key() -> Seq<char> {
    seq!['n', 'a', 'm', 'e']
}

pub open spec fn soap_action_key() -> Seq<char> {
    seq!['s', 'o', 'a', 'p', 'A', 'c', 't', 'i', 'o', 'n']
}

/// The `location` of the first `address` element in the tree, in document
/// order.
pub open spec fn sp_find_address(e: ElemModel) -> Option<Seq<char>>
    decreases e,
{
    if local_of(e.name) == address_name() && attr_value(e.attrs, location_key()) is Some {
        attr_value(e.attrs, location_key())
    } else {
        sp_find_address_in(e.children)
    }
}

pub open spec fn sp_find_address_in(cs: Seq<ElemModel>) -> Option<Seq<char>>
    decreases cs,
{
    if cs.len() == 0 {
        Option::None
    } else {
        match sp_find_address(cs[0]) {
            Option::Some(u) => Option::Some(u),
            Option::None => sp_find_address_in(cs.drop_first()),
        }
    }
}

/// The declared SOAP action of one operation element: the `soapAction`
/// attribute of its nested `operation` binding info, where present.
pub open spec fn sp_action_of(op: ElemModel) -> Option<Seq<char>> {
    match first_local(op.children, operation_name()) {
        Option::Some(so) => attr_value(so.attrs, soap_action_key()),
        Option::None => Option::None,
    }
}

/// The named operations among the children of one `binding` element, in
/// order, each with its declared action.
pub open spec fn binding_ops(cs: Seq<ElemModel>) -> Seq<(Seq<char>, Option<Seq<char>>)>
    decreases cs.len(),
{
    if cs.len() == 0 {
        Seq::empty()
    } else if local_of(cs[0].name) == operation_name() && attr_value(cs[0].attrs, name_key())
        is Some {
        seq![(attr_value(cs[0].attrs, name_key())->0, sp_action_of(cs[0]))] + binding_ops(
            cs.drop_first(),
        )
    } else {
        binding_ops(cs.drop_first())
    }
}

/// Every operation declared under any `binding` in the tree, in document
/// order.
pub open spec fn all_ops(e: ElemModel) -> Seq<(Seq<char>, Option<Seq<char>>)>
    decreases e, 0nat,
{
    (if local_of(e.name) == binding_name() {
        binding_ops(e.children)
    } else {
        Seq::empty()
    }) + all_ops_in(e.children)
}

pub open spec fn all_ops_in(cs: Seq<ElemModel>) -> Seq<(Seq<char>, Option<Seq<char>>)>
    decreases cs, 1nat,
{
    if cs.len() == 0 {
        Seq::empty()
    } else {
        all_ops(cs[0]) + all_ops_in(cs.drop_first())
    }
}

/// What discovery yields from a parsed service description.
pub ghost enum TableOut {
    /// No `address` with a `location` was found.
    NoAddress,
    /// No operation declaration was found.
    NoOperations,
    /// The discovered table.
    Table(Seq<OpModel>),
}

/// The table built from a parsed service description: every declared
/// operation, each bound to the service's address.
pub open spec fn spec_table(root: ElemModel) -> TableOut {
    match sp_find_address(root) {
        Option::None => TableOut::NoAddress,
        Option::Some(url) => {
            let ops = all_ops(root);
            if ops.len() == 0 {
                TableOut::NoOperations
            } else {
                TableOut::Table(
                    ops.map_values(
                        |p: (Seq<char>, Option<Seq<char>>)|
                            OpModel { name: p.0, url: url, action: p.1 },
                    ),
                )
            }
        },
    }
}

/// The models of the table rows.
pub open spec fn op_models(ops: Seq<(String, OperationBinding)>) -> Seq<OpModel> {
    ops.map_values(
        |p: (String, OperationBinding)|
            OpModel {
                name: p.0@,
                url: p.1.url@,
                action: match p.1.soap_action {
                    Option::Some(a) => Option::Some(a@),
                    Option::None => Option::None,
                },
            },
    )
}

#[verifier::loop_isolation(false)]
fn find_address(e: &Element) -> (r: Option<String>)
    ensures
        match r {
            Option::Some(u) => sp_find_address(e@) == Option::Some(u@),
            Option::None => sp_find_address(e@) is None,
        },
    decreases e, 0nat,
{
    broadcast use lemma_model_child;

    if str_eq(local_part(e.name.as_str()), "address") {
        proof {
            reveal_strlit("address");
            reveal_strlit("location");
            assert("address"@ =~= address_name());
            assert("location"@ =~= location_key());
        }
        match attr_of(e, "location") {
            Some(u) => {
                return Some(u);
            },
            None => {},
        }
    } else {
        proof {
            reveal_strlit("address");
            assert("address"@ =~= address_name());
        }
    }
    let n = e.children.len();
    let mut i: usize = 0;
    proof {
        assert(e@.children.skip(0) =~= e@.children);
    }
    while i < n
        invariant
            n == e.children@.len(),
            i <= n,
            sp_find_address_in(e@.children.skip(i as int)) == sp_find_address_in(e@.children),
        decreases n - i, 1nat,
    {
        proof {
            assert(e@.children.skip(i as int)[0] == e@.children[i as int]);
            assert(e@.children.skip(i as int).drop_first() =~= e@.children.skip(i as int + 1));
        }
        match find_address(&e.children[i]) {
            Some(u) => {
                return Some(u);
            },
            None => {},
        }
        i += 1;
    }
    proof {
        assert(sp_find_address_in(e@.children.skip(n as int)) is None);
    }
    None
}

/// The views of collected raw rows.
pub open spec fn raw_models(ps: Seq<(String, Option<String>)>) -> Seq<
    (Seq<char>, Option<Seq<char>>),
> {
    ps.map_values(
        |p: (String, Option<String>)|
            (
                p.0@,
                match p.1 {
                    Option::Some(a) => Option::Some(a@),
                    Option::None => Option::None,
                },
            ),
    )
}

#[verifier::loop_isolation(false)]
fn collect_ops(e: &Element, out: &mut Vec<(String, Option<String>)>)
    ensures
        raw_models(final(out)@) == raw_models(old(out)@) + all_ops(e@),
    decreases e, 0nat,
{
    broadcast use lemma_model_child;

    proof {
        reveal_strlit("binding");
        reveal_strlit("operation");
        reveal_strlit("name");
        reveal_strlit("soapAction");
        assert("binding"@ =~= binding_name());
        assert("operation"@ =~= operation_name());
        assert("name"@ =~= name_key());
        assert("soapAction"@ =~= soap_action_key());
    }
    let ghost base = raw_models(out@);
    if str_eq(local_part(e.name.as_str()), "binding") {
        let n = e.children.len();
        let mut i: usize = 0;
        proof {
            assert(e@.children.skip(0) =~= e@.children);
        }
        while i < n
            invariant
                n == e.children@.len(),
                i <= n,
                raw_models(out@) + binding_ops(e@.children.skip(i as int)) == base + binding_ops(
                    e@.children,
                ),
            decreases n - i,
        {
            proof {
                assert(e@.children.skip(i as int)[0] == e@.children[i as int]);
                assert(e@.children.skip(i as int).drop_first() =~= e@.children.skip(
                    i as int + 1,
                ));
            }
            let child = &e.children[i];
            if str_eq(local_part(child.name.as_str()), "operation") {
                match attr_of(child, "name") {
                    Some(nm) => {
                        let action: Option<String> = match child.find_local("operation") {
                            Some(ix) => attr_of(&child.children[ix], "soapAction"),
                            None => None,
                        };
                        let ghost pre = raw_models(out@);
                        proof {
                            assert(nm@ == attr_value(e@.children[i as int].attrs, name_key())->0);
                            assert((match action {
                                Option::Some(a) => Option::Some(a@),
                                Option::None => Option::<Seq<char>>::None,
                            }) == sp_action_of(e@.children[i as int]));
                        }
                        out.push((nm, action));
                        proof {
                            assert(raw_models(out@) =~= pre + seq![
                                (
                                    attr_value(e@.children[i as int].attrs, name_key())->0,
                                    sp_action_of(e@.children[i as int]),
                                ),
                            ]);
                            assert((pre + seq![
                                (
                                    attr_value(e@.children[i as int].attrs, name_key())->0,
                                    sp_action_of(e@.children[i as int]),
                                ),
                            ]) + binding_ops(e@.children.skip(i as int + 1)) =~= pre + (seq![
                                (
                                    attr_value(e@.children[i as int].attrs, name_key())->0,
                                    sp_action_of(e@.children[i as int]),
                                ),
                            ] + binding_ops(e@.children.skip(i as int + 1))));
                        }
                    },
                    None => {},
                }
            }
            i += 1;
        }
        proof {
            assert(binding_ops(e@.children.skip(n as int)) =~= Seq::<
                (Seq<char>, Option<Seq<char>>),
            >::empty());
            assert(raw_models(out@) =~= base + binding_ops(e@.children));
        }
    }
    let ghost mid = raw_models(out@);
    let n = e.children.len();
    let mut i: usize = 0;
    proof {
        assert(e@.children.skip(0) =~= e@.children);
    }
    while i < n
        invariant
            n == e.children@.len(),
            i <= n,
            raw_models(out@) + all_ops_in(e@.children.skip(i as int)) == mid + all_ops_in(
                e@.children,
            ),
        decreases n - i, 1nat,
    {
        proof {
            assert(e@.children.skip(i as int)[0] == e@.children[i as int]);
            assert(e@.children.skip(i as int).drop_first() =~= e@.children.skip(i as int + 1));
        }
        let ghost pre = raw_models(out@);
        collect_ops(&e.children[i], out);
        proof {
            assert((pre + all_ops(e@.children[i as int])) + all_ops_in(
                e@.children.skip(i as int + 1),
            ) =~= pre + (all_ops(e@.children[i as int]) + all_ops_in(
                e@.children.skip(i as int + 1),
            )));
        }
        i += 1;
    }
    proof {
        assert(all_ops_in(e@.children.skip(n as int)) =~= Seq::<
            (Seq<char>, Option<Seq<char>>),
        >::empty());
        assert(raw_models(out@) =~= mid + all_ops_in(e@.children));
        assert(raw_models(out@) =~= base + all_ops(e@));
    }
}

/// Builds the operation table from a parsed service description. A
/// description without an address or without operations is rejected: no
/// silent empty table.
#[verifier::loop_isolation(false)]
pub fn wsdl_from_element(root: &Element) -> (r: Result<Wsdl, RpcError>)
    ensures
        ({
            let t = spec_table(root@);
            match r {
                Result::Ok(w) => t == TableOut::Table(op_models(w.operations@)),
                Result::Err(RpcError::MissingElement { segment, available }) => (t
                    is NoAddress && segment@ == address_name() && available@.len() == 0) || (t
                    is NoOperations && segment@ == operation_name() && available@.len() == 0),
                Result::Err(_) => false,
            }
        }),
{
    proof {
        reveal_strlit("address");
        reveal_strlit("operation");
        assert("address"@ =~= address_name());
        assert("operation"@ =~= operation_name());
    }
    let url = match find_address(root) {
        None => {
            return Err(
                RpcError::MissingElement { segment: "address".to_owned(), available: Vec::new() },
            );
        },
        Some(u) => u,
    };
    let mut raw: Vec<(String, Option<String>)> = Vec::new();
    collect_ops(root, &mut raw);
    proof {
        assert(raw_models(Seq::<(String, Option<String>)>::empty()) =~= Seq::<
            (Seq<char>, Option<Seq<char>>),
        >::empty());
        assert(raw_models(raw@) =~= all_ops(root@));
    }
    if raw.len() == 0 {
        return Err(
            RpcError::MissingElement { segment: "operation".to_owned(), available: Vec::new() },
        );
    }
    let nr = raw.len();
    let mut operations: Vec<(String, OperationBinding)> = Vec::new();
    let mut i: usize = 0;
    while i < nr
        invariant
            nr == raw@.len(),
            i <= nr,
            operations@.len() == i,
            raw_models(raw@) == all_ops(root@),
            sp_find_address(root@) == Option::Some(url@),
            forall|j: int|
                0 <= j < i ==> (#[trigger] operations@[j]).0@ == raw_models(raw@)[j].0
                    && operations@[j].1.url@ == url@ && (match operations@[j].1.soap_action {
                    Option::Some(a) => Option::Some(a@),
                    Option::None => Option::<Seq<char>>::None,
                }) == raw_models(raw@)[j].1,
        decreases nr - i,
    {
        let action: Option<String> = match &raw[i].1 {
            Some(a) => Some(a.clone()),
            None => None,
        };
        operations.push(
            (raw[i].0.clone(), OperationBinding { url: url.clone(), soap_action: action }),
        );
        i += 1;
    }
    proof {
        let ops = all_ops(root@);
        assert(op_models(operations@) =~= ops.map_values(
            |p: (Seq<char>, Option<Seq<char>>)| OpModel { name: p.0, url: url@, action: p.1 },
        ));
    }
    Ok(Wsdl { operations })
}

/// The first table row carrying the requested operation name.
pub open spec fn spec_resolve(ops: Seq<OpModel>, nm: Seq<char>) -> Option<OpModel>
    decreases ops.len(),
{
    if ops.len() == 0 {
        Option::None
    } else if ops[0].name == nm {
        Option::Some(ops[0])
    } else {
        spec_resolve(ops.drop_first(), nm)
    }
}

proof fn lemma_spec_resolve_at(ops: Seq<OpModel>, nm: Seq<char>, m: int)
    requires
        0 <= m < ops.len(),
        ops[m].name == nm,
        forall|j: int| 0 <= j < m ==> ops[j].name != nm,
    ensures
        spec_resolve(ops, nm) == Option::Some(ops[m]),
    decreases m,
{
    if m > 0 {
        lemma_spec_resolve_at(ops.drop_first(), nm, m - 1);
    }
}

proof fn lemma_spec_resolve_none(ops: Seq<OpModel>, nm: Seq<char>)
    requires
        forall|j: int| 0 <= j < ops.len() ==> ops[j].name != nm,
    ensures
        spec_resolve(ops, nm) is None,
    decreases ops.len(),
{
    if ops.len() > 0 {
        lemma_spec_resolve_none(ops.drop_first(), nm);
    }
}

impl Wsdl {
    /// Looks an operation up by name. An unknown name is reported as
    /// `UnknownOperation`, distinct from structural and transport errors.
    #[verifier::loop_isolation(false)]
    pub fn resolve(&self, operation_name: &str) -> (r: Result<&OperationBinding, RpcError>)
        ensures
            ({
                let sr = spec_resolve(op_models(self.operations@), operation_name@);
                match r {
                    Result::Ok(b) => sr matches Option::Some(m) && m.url == b.url@ && m.action
                        == (match b.soap_action {
                        Option::Some(a) => Option::Some(a@),
                        Option::None => Option::<Seq<char>>::None,
                    }),
                    Result::Err(RpcError::UnknownOperation { name }) => sr is None && name@
                        == operation_name@,
                    Result::Err(_) => false,
                }
            }),
    {
        let n = self.operations.len();
        let mut i: usize = 0;
        while i < n
            invariant
                n == self.operations@.len(),
                i <= n,
                forall|j: int| 0 <= j < i ==> op_models(self.operations@)[j].name
                    != operation_name@,
            decreases n - i,
        {
            if str_eq(self.operations[i].0.as_str(), operation_name) {
                proof {
                    lemma_spec_resolve_at(
                        op_models(self.operations@),
                        operation_name@,
                        i as int,
                    );
                }
                return Ok(&self.operations[i].1);
            }
            i += 1;
        }
        proof {
            lemma_spec_resolve_none(op_models(self.operations@), operation_name@);
        }
        Err(RpcError::UnknownOperation { name: operation_name.to_owned() })
    }
}

/// Parses a service description and builds its operation table: the
/// compute half of WSDL discovery, fed by whatever transport fetched the
/// document.
pub fn wsdl_from_text(body: &str) -> (r: Result<Wsdl, RpcError>)
    ensures
        ({
            match r {
                Result::Ok(w) => sp_doc(body@) matches Option::Some(root) && spec_table(root)
                    == TableOut::Table(op_models(w.operations@)),
                Result::Err(RpcError::MalformedXml { .. }) => sp_doc(body@) is None,
                Result::Err(RpcError::MissingElement { segment, available }) => sp_doc(body@)
                    matches Option::Some(root) && ((spec_table(root) is NoAddress && segment@
                    == address_name()) || (spec_table(root) is NoOperations && segment@
                    == operation_name())),
                Result::Err(_) => false,
            }
        }),
{
    match parse(body) {
        Err(e) => Err(e),
        Ok(root) => wsdl_from_element(&root),
    }
}

} // verus!
