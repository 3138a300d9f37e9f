//! The compute halves of the session workflow: building requests, resolving
//! calls against the discovered table, and interpreting decoded responses.
//! The surrounding I/O — posting envelopes, fetching the service
//! description — lives outside the verified core and hands plain values in
//! and out.

use vstd::prelude::*;

use crate::codec::{seq_models, xml_of};
use crate::errors::RpcError;
use crate::soap::{encode, envelope_model, Method, Response};
use crate::tree::{spec_descend, ElemModel, Element};
use crate::text::str_eq;
use crate::wsdl::{op_models, spec_resolve, OperationBinding, Wsdl};

verus! {

broadcast use vstd::std_specs::vec::group_vec_axioms, vstd::seq::group_seq_axioms;

/// A pure-text leaf element.
pub open spec fn text_elem(name: Seq<char>, value: Seq<char>) -> ElemModel {
    ElemModel {
        name,
        attrs: Seq::empty(),
        children: Seq::empty(),
        text: Option::Some(value),
    }
}

/// Builds a pure-text leaf element.
pub fn text_arg(name: &str, value: &str) -> (r: Element)
    ensures
        r@ == text_elem(name@, value@),
{
    let e = Element::node(name).with_text(value);
    proof {
        assert(e@ =~= text_elem(name@, value@));
    }
    e
}

/// The service description path appended to the site URL.
pub open spec fn wsdl_path() -> Seq<char> {
    "/rpc/soap-axis/confluenceservice-v2?wsdl"@
}

/// The site URL without a trailing slash.
pub open spec fn trimmed(base: Seq<char>) -> Seq<char> {
    if base.len() > 0 && base.last() == '/' {
        base.drop_last()
    } else {
        base
    }
}

/// The URL of the service description for a site: the site URL, any
/// trailing slash removed, with the fixed service path appended.
pub fn wsdl_url_of(base: &str) -> (r: String)
    ensures
        r@ == trimmed(base@) + wsdl_path(),
{
    let n = base.unicode_len();
    let stem: &str = if n > 0 && base.get_char(n - 1) == '/' {
        base.substring_char(0, n - 1)
    } else {
        base
    };
    proof {
        assert(stem@ =~= trimmed(base@));
    }
    stem.to_owned().concat("/rpc/soap-axis/confluenceservice-v2?wsdl")
}

/// The arguments of a login call: the user name and the password, in that
/// order.
pub fn login_method(user: &str, pass: &str) -> (r: Method)
    ensures
        r.name@ == "login"@,
        seq_models(r.args@) == seq![
            text_elem("username"@, user@),
            text_elem("password"@, pass@),
        ],
{
    let m = Method::new("login").with(text_arg("username", user)).with(
        text_arg("password", pass),
    );
    proof {
        assert(seq_models(m.args@) =~= seq![
            text_elem("username"@, user@),
            text_elem("password"@, pass@),
        ]);
    }
    m
}

/// A call that carries only the session token, as `logout` does.
pub fn token_method(name: &str, token: &str) -> (r: Method)
    ensures
        r.name@ == name@,
        seq_models(r.args@) == seq![text_elem("token"@, token@)],
{
    let m = Method::new(name).with(text_arg("token", token));
    proof {
        assert(seq_models(m.args@) =~= seq![text_elem("token"@, token@)]);
    }
    m
}

/// Reads the login token out of a decoded login response: the text of its
/// `loginReturn` element. An absent element is a shape error; an element
/// without text means the server handed back no token, which the caller
/// must treat as its own failure rather than as an empty token.
pub fn token_from_response(resp: &Response) -> (r: Result<Option<String>, RpcError>)
    ensures
        ({
            let sr = spec_descend(resp.body@, seq!["loginReturn"@]);
            match r {
                Result::Ok(t) => sr matches Result::Ok(e) && (match t {
                    Option::Some(s) => e.text == Option::Some(s@),
                    Option::None => e.text is None,
                }),
                Result::Err(RpcError::MissingElement { segment, available }) => sr matches
                    Result::Err(em) && segment@ == em.0 && available@.map_values(|x: String| x@)
                    == em.1,
                Result::Err(_) => false,
            }
        }),
{
    let mut path: Vec<&str> = Vec::new();
    path.push("loginReturn");
    proof {
        assert(path@.map_values(|s: &str| s@) =~= seq!["loginReturn"@]);
    }
    match resp.body.descend(path.as_slice()) {
        Ok(e) => match &e.text {
            Some(t) => Ok(Some(t.clone())),
            None => Ok(None),
        },
        Err(er) => Err(er),
    }
}

/// Interprets a decoded logout response: true exactly when the text of its
/// `logoutReturn` element is `true`.
pub fn logout_result(resp: &Response) -> (r: Result<bool, RpcError>)
    ensures
        ({
            let sr = spec_descend(resp.body@, seq!["logoutReturn"@]);
            match r {
                Result::Ok(b) => sr matches Result::Ok(e) && b == (e.text == Option::Some(
                    "true"@,
                )),
                Result::Err(RpcError::MissingElement { segment, available }) => sr matches
                    Result::Err(em) && segment@ == em.0 && available@.map_values(|x: String| x@)
                    == em.1,
                Result::Err(_) => false,
            }
        }),
{
    let mut path: Vec<&str> = Vec::new();
    path.push("logoutReturn");
    proof {
        assert(path@.map_values(|s: &str| s@) =~= seq!["logoutReturn"@]);
    }
    match resp.body.descend(path.as_slice()) {
        Ok(e) => match &e.text {
            Some(t) => Ok(str_eq(t.as_str(), "true")),
            None => Ok(false),
        },
        Err(er) => Err(er),
    }
}

/// The character standing for one decimal digit.
pub open spec fn digit_char(d: nat) -> char {
    if d == 0 {
        '0'
    } else if d == 1 {
        '1'
    } else if d == 2 {
        '2'
    } else if d == 3 {
        '3'
    } else if d == 4 {
        '4'
    } else if d == 5 {
        '5'
    } else if d == 6 {
        '6'
    } else if d == 7 {
        '7'
    } else if d == 8 {
        '8'
    } else {
        '9'
    }
}

/// The decimal digits of a number, most significant first, no leading
/// zeroes except for zero itself.
pub open spec fn dec_digits(n: nat) -> Seq<char>
    decreases n,
    via dec_digits_decreases
{
    if n < 10 {
        seq![digit_char(n)]
    } else {
        dec_digits(n / 10) + seq![digit_char(n % 10)]
    }
}

#[via_fn]
proof fn dec_digits_decreases(n: nat) {
    if n >= 10 {
        vstd::arithmetic::div_mod::lemma_div_decreases(n as int, 10);
    }
}

/// The decimal rendering of a signed number: a minus sign, where negative,
/// then its digits.
pub open spec fn dec_of_i64(v: int) -> Seq<char> {
    if v < 0 {
        seq!['-'] + dec_digits((-v) as nat)
    } else {
        dec_digits(v as nat)
    }
}

/// Appends one decimal digit.
fn push_digit(out: &mut String, d: u64)
    requires
        d < 10,
    ensures
        final(out)@ == old(out)@ + seq![digit_char(d as nat)],
{
    if d == 0 {
        out.append("0");
        proof {
            reveal_strlit("0");
            assert(out@ =~= old(out)@ + seq![digit_char(d as nat)]);
        }
    } else if d == 1 {
        out.append("1");
        proof {
            reveal_strlit("1");
            assert(out@ =~= old(out)@ + seq![digit_char(d as nat)]);
        }
    } else if d == 2 {
        out.append("2");
        proof {
            reveal_strlit("2");
            assert(out@ =~= old(out)@ + seq![digit_char(d as nat)]);
        }
    } else if d == 3 {
        out.append("3");
        proof {
            reveal_strlit("3");
            assert(out@ =~= old(out)@ + seq![digit_char(d as nat)]);
        }
    } else if d == 4 {
        out.append("4");
        proof {
            reveal_strlit("4");
            assert(out@ =~= old(out)@ + seq![digit_char(d as nat)]);
        }
    } else if d == 5 {
        out.append("5");
        proof {
            reveal_strlit("5");
            assert(out@ =~= old(out)@ + seq![digit_char(d as nat)]);
        }
    } else if d == 6 {
        out.append("6");
        proof {
            reveal_strlit("6");
            assert(out@ =~= old(out)@ + seq![digit_char(d as nat)]);
        }
    } else if d == 7 {
        out.append("7");
        proof {
            reveal_strlit("7");
            assert(out@ =~= old(out)@ + seq![digit_char(d as nat)]);
        }
    } else if d == 8 {
        out.append("8");
        proof {
            reveal_strlit("8");
            assert(out@ =~= old(out)@ + seq![digit_char(d as nat)]);
        }
    } else {
        out.append("9");
        proof {
            reveal_strlit("9");
            assert(out@ =~= old(out)@ + seq![digit_char(d as nat)]);
        }
    }
}

fn push_decimal(out: &mut String, x: u64)
    ensures
        final(out)@ == old(out)@ + dec_digits(x as nat),
    decreases x,
{
    if x >= 10 {
        proof {
            vstd::arithmetic::div_mod::lemma_div_decreases(x as int, 10);
        }
        push_decimal(out, x / 10);
        push_digit(out, x % 10);
        proof {
            assert((old(out)@ + dec_digits((x / 10) as nat)) + seq![
                digit_char((x % 10) as nat),
            ] =~= old(out)@ + (dec_digits((x / 10) as nat) + seq![digit_char((x % 10) as nat)]));
        }
    } else {
        push_digit(out, x);
    }
}

/// Renders a numeric identifier the way the wire expects it: plain decimal,
/// a leading minus for negative values.
pub fn render_i64(v: i64) -> (r: String)
    ensures
        r@ == dec_of_i64(v as int),
{
    let mut out = String::new();
    if v < 0 {
        out.append("-");
        let mag: u64 = ((-(v + 1)) as u64) + 1;
        proof {
            assert(mag as int == -(v as int));
        }
        push_decimal(&mut out, mag);
        proof {
            reveal_strlit("-");
            assert(out@ =~= seq!['-'] + dec_digits(mag as nat));
        }
    } else {
        push_decimal(&mut out, v as u64);
        proof {
            assert(Seq::<char>::empty() + dec_digits(v as nat) =~= dec_digits(v as nat));
        }
    }
    out
}

/// The element list describing a page for `storePage` and `updatePage`:
/// space, title and content always, then id, version and parent id where
/// given. Numeric identifiers arrive already rendered as text.
pub open spec fn page_arg_models(
    space: Seq<char>,
    title: Seq<char>,
    content: Seq<char>,
    id: Option<int>,
    version: Option<int>,
    parent_id: Option<int>,
) -> Seq<ElemModel> {
    seq![
        text_elem("space"@, space),
        text_elem("title"@, title),
        text_elem("content"@, content),
    ] + (match id {
        Option::Some(v) => seq![text_elem("id"@, dec_of_i64(v))],
        Option::None => Seq::empty(),
    }) + (match version {
        Option::Some(v) => seq![text_elem("version"@, dec_of_i64(v))],
        Option::None => Seq::empty(),
    }) + (match parent_id {
        Option::Some(v) => seq![text_elem("parentId"@, dec_of_i64(v))],
        Option::None => Seq::empty(),
    })
}

/// Builds the page description element list, rendering the numeric
/// identifiers as decimal text.
pub fn page_elements(
    space: &str,
    title: &str,
    content: &str,
    id: Option<i64>,
    version: Option<i64>,
    parent_id: Option<i64>,
) -> (r: Vec<Element>)
    ensures
        seq_models(r@) == page_arg_models(
            space@,
            title@,
            content@,
            match id {
                Option::Some(v) => Option::Some(v as int),
                Option::None => Option::None,
            },
            match version {
                Option::Some(v) => Option::Some(v as int),
                Option::None => Option::None,
            },
            match parent_id {
                Option::Some(v) => Option::Some(v as int),
                Option::None => Option::None,
            },
        ),
{
    let mut items: Vec<Element> = Vec::new();
    items.push(text_arg("space", space));
    items.push(text_arg("title", title));
    items.push(text_arg("content", content));
    match id {
        Some(v) => {
            let rendered = render_i64(v);
            items.push(text_arg("id", rendered.as_str()));
        },
        None => {},
    }
    match version {
        Some(v) => {
            let rendered = render_i64(v);
            items.push(text_arg("version", rendered.as_str()));
        },
        None => {},
    }
    match parent_id {
        Some(v) => {
            let rendered = render_i64(v);
            items.push(text_arg("parentId", rendered.as_str()));
        },
        None => {},
    }
    proof {
        assert(seq_models(items@) =~= page_arg_models(
            space@,
            title@,
            content@,
            match id {
                Option::Some(v) => Option::Some(v as int),
                Option::None => Option::None,
            },
            match version {
                Option::Some(v) => Option::Some(v as int),
                Option::None => Option::None,
            },
            match parent_id {
                Option::Some(v) => Option::Some(v as int),
                Option::None => Option::None,
            },
        ));
    }
    items
}

/// The update-options element list for `updatePage`: the version comment
/// where given, then whether the edit is minor.
pub open spec fn update_option_models(
    version_comment: Option<Seq<char>>,
    minor_edit: bool,
) -> Seq<ElemModel> {
    (match version_comment {
        Option::Some(c) => seq![text_elem("versionComment"@, c)],
        Option::None => Seq::empty(),
    }) + seq![
        text_elem(
            "minorEdit"@,
            if minor_edit {
                "true"@
            } else {
                "false"@
            },
        ),
    ]
}

/// Builds the update-options element list.
pub fn update_option_elements(version_comment: Option<&str>, minor_edit: bool) -> (r: Vec<
    Element,
>)
    ensures
        seq_models(r@) == update_option_models(
            match version_comment {
                Option::Some(c) => Option::Some(c@),
                Option::None => Option::None,
            },
            minor_edit,
        ),
{
    let mut items: Vec<Element> = Vec::new();
    match version_comment {
        Some(c) => items.push(text_arg("versionComment", c)),
        None => {},
    }
    if minor_edit {
        items.push(text_arg("minorEdit", "true"));
    } else {
        items.push(text_arg("minorEdit", "false"));
    }
    proof {
        assert(seq_models(items@) =~= update_option_models(
            match version_comment {
                Option::Some(c) => Option::Some(c@),
                Option::None => Option::None,
            },
            minor_edit,
        ));
    }
    items
}

/// Resolves a call against the table and produces what the transport must
/// send: the endpoint URL and the full envelope. An operation absent from
/// the table is `UnknownOperation`, before anything touches the network.
pub fn prepare_call(w: &Wsdl, m: &Method) -> (r: Result<(String, String), RpcError>)
    ensures
        ({
            let sr = spec_resolve(op_models(w.operations@), m.name@);
            match r {
                Result::Ok(pair) => sr matches Option::Some(b) && pair.0@ == b.url && pair.1@
                    == xml_of(envelope_model(m.name@, seq_models(m.args@))),
                Result::Err(RpcError::UnknownOperation { name }) => sr is None && name@
                    == m.name@,
                Result::Err(_) => false,
            }
        }),
{
    match w.resolve(m.name.as_str()) {
        Err(e) => Err(e),
        Ok(b) => {
            let url = b.url.clone();
            let envelope = encode(m, url.as_str());
            Ok((url, envelope))
        },
    }
}

/// The SOAP action to send with a call: the action the table declares for
/// the operation, or the method name where none is declared.
pub fn action_for(b: &OperationBinding, method_name: &str) -> (r: String)
    ensures
        r@ == (match b.soap_action {
            Option::Some(a) => a@,
            Option::None => method_name@,
        }),
{
    match &b.soap_action {
        Some(a) => a.clone(),
        None => method_name.to_owned(),
    }
}

/// A transport-level status check: only a 200 response carries a usable
/// SOAP payload; anything else is a transport failure, distinct from a
/// fault carried inside a successful response.
pub fn check_status(status: u16) -> (r: Result<(), RpcError>)
    ensures
        (r is Ok) == (status == 200),
        r matches Result::Err(e) ==> e matches RpcError::TransportFailure { .. },
{
    if status == 200 {
        Ok(())
    } else {
        Err(
            RpcError::TransportFailure {
                detail: "the server answered with a status other than 200".to_owned(),
            },
        )
    }
}

} // verus!
