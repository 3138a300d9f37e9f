//! The SOAP envelope codec: wraps a method call into an envelope on the way
//! out, and unwraps a response body on the way in, surfacing server-side
//! faults as their own error kind.

use vstd::prelude::*;

use crate::codec::{seq_models, serialize, xml_of};
use crate::errors::RpcError;
use crate::parser::{parse, sp_doc};
use crate::text::{contains_sub, has_sub, local_of, str_eq};
use crate::tree::{child_names, first_local, lemma_model_child, ElemModel, Element};

verus! {

broadcast use vstd::std_specs::vec::group_vec_axioms, vstd::seq::group_seq_axioms;

/// An outbound RPC invocation: a method name and its ordered arguments.
#[derive(Debug)]
pub struct Method {
    pub name: String,
    pub args: Vec<Element>,
}

impl Method {
    /// A method call with no arguments yet.
    pub fn new(name: &str) -> (r: Method)
        ensures
            r.name@ == name@,
            r.args@ == Seq::<Element>::empty(),
    {
        Method { name: name.to_owned(), args: Vec::new() }
    }

    /// Appends one argument element.
    pub fn with(self, arg: Element) -> (r: Method)
        ensures
            r.name == self.name,
            r.args@ == self.args@.push(arg),
    {
        let mut m = self;
        m.args.push(arg);
        m
    }
}

/// An inbound RPC result: the element wrapped by the envelope's body.
#[derive(Debug)]
pub struct Response {
    pub body: Element,
}

pub open spec fn envelope_name() -> Seq<char> {
    seq!['E', 'n', 'v', 'e', 'l', 'o', 'p', 'e']
}

pub open spec fn body_name() -> Seq<char> {
    seq!['B', 'o', 'd', 'y']
}

pub open spec fn fault_marker() -> Seq<char> {
    seq!['F', 'a', 'u', 'l', 't']
}

/// A name follows the fault convention when it contains `Fault`.
pub open spec fn is_fault_name(n: Seq<char>) -> bool {
    has_sub(n, fault_marker())
}

/// The envelope wrapping one method call: `Envelope`, holding `Body`,
/// holding one element named after the method whose children are the
/// arguments in order.
pub open spec fn envelope_model(mname: Seq<char>, args: Seq<ElemModel>) -> ElemModel {
    ElemModel {
        name: envelope_name(),
        attrs: Seq::empty(),
        children: seq![
            ElemModel {
                name: body_name(),
                attrs: Seq::empty(),
                children: seq![
                    ElemModel {
                        name: mname,
                        attrs: Seq::empty(),
                        children: args,
                        text: Option::None,
                    },
                ],
                text: Option::None,
            },
        ],
        text: Option::None,
    }
}

/// Deep copies of a list of elements.
fn duplicate_all(v: &Vec<Element>) -> (r: Vec<Element>)
    ensures
        seq_models(r@) == seq_models(v@),
{
    let n = v.len();
    let mut out: Vec<Element> = Vec::new();
    let mut i: usize = 0;
    while i < n
        invariant
            n == v@.len(),
            i <= n,
            out@.len() == i,
            forall|j: int| 0 <= j < i ==> out@[j].model() == v@[j].model(),
        decreases n - i,
    {
        out.push(v[i].duplicate());
        i += 1;
    }
    proof {
        assert(seq_models(out@) =~= seq_models(v@));
    }
    out
}

/// Produces the full SOAP envelope for the given method call. The target
/// URL does not affect the argument content; it is accepted so that callers
/// can hand the resolved endpoint along with the call.
pub fn encode(m: &Method, _target_url: &str) -> (r: String)
    ensures
        r@ == xml_of(envelope_model(m.name@, seq_models(m.args@))),
{
    let call = Element {
        name: m.name.clone(),
        attributes: Vec::new(),
        children: duplicate_all(&m.args),
        text: None,
    };
    let ghost call_m = ElemModel {
        name: m.name@,
        attrs: Seq::empty(),
        children: seq_models(m.args@),
        text: Option::None,
    };
    proof {
        assert(call@.attrs =~= call_m.attrs);
        assert(call@.children =~= call_m.children);
        assert(call@ =~= call_m);
    }
    let mut bc: Vec<Element> = Vec::new();
    bc.push(call);
    let body = Element {
        name: "Body".to_owned(),
        attributes: Vec::new(),
        children: bc,
        text: None,
    };
    let ghost body_m = ElemModel {
        name: body_name(),
        attrs: Seq::empty(),
        children: seq![call_m],
        text: Option::None,
    };
    proof {
        reveal_strlit("Body");
        assert("Body"@ =~= body_name());
        assert(body@.attrs =~= body_m.attrs);
        assert(body@.children =~= body_m.children);
        assert(body@ =~= body_m);
    }
    let mut ec: Vec<Element> = Vec::new();
    ec.push(body);
    let env = Element {
        name: "Envelope".to_owned(),
        attributes: Vec::new(),
        children: ec,
        text: None,
    };
    proof {
        reveal_strlit("Envelope");
        assert("Envelope"@ =~= envelope_name());
        assert(env@.attrs =~= envelope_model(m.name@, seq_models(m.args@)).attrs);
        assert(env@.children =~= envelope_model(m.name@, seq_models(m.args@)).children);
        assert(env@ =~= envelope_model(m.name@, seq_models(m.args@)));
    }
    serialize(&env)
}

/// The text of the first child with the given local name, or empty when no
/// such child exists or it has no text.
pub open spec fn child_text(e: ElemModel, nm: Seq<char>) -> Seq<char> {
    match first_local(e.children, nm) {
        Option::Some(c) => match c.text {
            Option::Some(t) => t,
            Option::None => Seq::empty(),
        },
        Option::None => Seq::empty(),
    }
}

fn child_text_x(e: &Element, nm: &str) -> (r: String)
    ensures
        r@ == child_text(e@, nm@),
{
    broadcast use lemma_model_child;

    match e.find_local(nm) {
        Some(ix) => match &e.children[ix].text {
            Some(t) => t.clone(),
            None => String::new(),
        },
        None => String::new(),
    }
}

/// The outcome of decoding a response body.
pub ghost enum DecodeOut {
    /// The body was not well-formed XML.
    Malformed,
    /// The envelope shape was wrong: the missing part and the names found.
    Missing(Seq<char>, Seq<Seq<char>>),
    /// The server signalled a fault: its code and message.
    Fault(Seq<char>, Seq<char>),
    /// The element wrapped by the body.
    Good(ElemModel),
}

/// What decoding yields for a given body text: parse it, find `Envelope`
/// and its `Body` (matching local names), surface a fault-named first child
/// as a fault, and otherwise hand out the body's first child.
pub open spec fn spec_decode(s: Seq<char>) -> DecodeOut {
    match sp_doc(s) {
        Option::None => DecodeOut::Malformed,
        Option::Some(root) => if local_of(root.name) != envelope_name() {
            DecodeOut::Missing(envelope_name(), seq![root.name])
        } else {
            match first_local(root.children, body_name()) {
                Option::None => DecodeOut::Missing(body_name(), child_names(root.children)),
                Option::Some(body) => if body.children.len() == 0 {
                    DecodeOut::Missing(fault_marker(), child_names(body.children))
                } else if is_fault_name(body.children[0].name) {
                    DecodeOut::Fault(
                        child_text(body.children[0], seq!['f', 'a', 'u', 'l', 't', 'c', 'o', 'd', 'e']),
                        child_text(
                            body.children[0],
                            seq!['f', 'a', 'u', 'l', 't', 's', 't', 'r', 'i', 'n', 'g'],
                        ),
                    )
                } else {
                    DecodeOut::Good(body.children[0])
                },
            }
        },
    }
}

/// Parses a response body and unwraps `Envelope` and `Body`. A first child
/// of `Body` whose name follows the fault convention fails with
/// `RemoteFault`; a malformed body fails with `MalformedXml`; a wrong shape
/// fails with `MissingElement`. Otherwise the body's first child becomes the
/// response's root element.
pub fn decode(body_text: &str) -> (r: Result<Response, RpcError>)
    ensures
        ({
            let d = spec_decode(body_text@);
            match r {
                Result::Ok(resp) => d == DecodeOut::Good(resp.body@),
                Result::Err(RpcError::MalformedXml { .. }) => d is Malformed,
                Result::Err(RpcError::MissingElement { segment, available }) => d
                    == DecodeOut::Missing(segment@, available@.map_values(|t: String| t@)),
                Result::Err(RpcError::RemoteFault { code, message }) => d == DecodeOut::Fault(
                    code@,
                    message@,
                ),
                Result::Err(_) => false,
            }
        }),
{
    broadcast use lemma_model_child;

    let mut root = match parse(body_text) {
        Err(e) => {
            return Err(e);
        },
        Ok(root) => root,
    };
    let ghost root_m = root@;
    proof {
        reveal_strlit("Envelope");
        reveal_strlit("Body");
        reveal_strlit("Fault");
        reveal_strlit("faultcode");
        reveal_strlit("faultstring");
        assert("Envelope"@ =~= envelope_name());
        assert("Body"@ =~= body_name());
        assert("Fault"@ =~= fault_marker());
        assert("faultcode"@ =~= seq!['f', 'a', 'u', 'l', 't', 'c', 'o', 'd', 'e']);
        assert("faultstring"@ =~= seq!['f', 'a', 'u', 'l', 't', 's', 't', 'r', 'i', 'n', 'g']);
    }
    if !str_eq(crate::text::local_part(root.name.as_str()), "Envelope") {
        let mut available: Vec<String> = Vec::new();
        available.push(root.name.clone());
        proof {
            assert(available@.map_values(|t: String| t@) =~= seq![root_m.name]);
        }
        return Err(
            RpcError::MissingElement { segment: "Envelope".to_owned(), available },
        );
    }
    let bi = match root.find_local("Body") {
        None => {
            let available = root.child_name_list();
            return Err(RpcError::MissingElement { segment: "Body".to_owned(), available });
        },
        Some(bi) => bi,
    };
    let mut body = root.children.remove(bi);
    proof {
        assert(body@ == root_m.children[bi as int]);
    }
    if body.children.len() == 0 {
        let available = body.child_name_list();
        return Err(RpcError::MissingElement { segment: "Fault".to_owned(), available });
    }
    let ghost body_m = body@;
    let first = body.children.remove(0);
    proof {
        assert(first@ == body_m.children[0]);
    }
    if contains_sub(first.name.as_str(), "Fault") {
        let code = child_text_x(&first, "faultcode");
        let message = child_text_x(&first, "faultstring");
        return Err(RpcError::RemoteFault { code, message });
    }
    Ok(Response { body: first })
}

} // verus!
