use confluence::errors::RpcError;
use confluence::session::{
    action_for, check_status, login_method, logout_result, page_elements, prepare_call,
    render_i64, token_from_response, token_method, update_option_elements, wsdl_url_of,
};
use confluence::soap::{decode, encode, Response};
use confluence::tree::Element;
use confluence::wsdl::{OperationBinding, Wsdl};

#[test]
fn wsdl_url_strips_one_trailing_slash() {
    let expected = "https://confluence/rpc/soap-axis/confluenceservice-v2?wsdl";
    assert_eq!(wsdl_url_of("https://confluence/"), expected);
    assert_eq!(wsdl_url_of("https://confluence"), expected);
}

#[test]
fn login_method_carries_user_and_password_in_order() {
    let wire = encode(&login_method("user", "pa<ss"), "https://host/rpc");
    assert!(wire.contains(
        "<login><username>user</username><password>pa&lt;ss</password></login>"
    ));
}

#[test]
fn token_method_carries_only_the_token() {
    let wire = encode(&token_method("logout", "tok"), "https://host/rpc");
    assert!(wire.contains("<logout><token>tok</token></logout>"));
}

#[test]
fn token_is_read_from_login_return() {
    let resp = decode(
        "<Envelope><Body><loginResponse><loginReturn>tok123</loginReturn>\
         </loginResponse></Body></Envelope>",
    )
    .unwrap();
    assert_eq!(token_from_response(&resp).unwrap().as_deref(), Some("tok123"));
}

#[test]
fn absent_token_text_is_reported_as_none() {
    let resp = Response {
        body: Element::node("loginResponse")
            .with_children(vec![Element::node("loginReturn")]),
    };
    assert!(token_from_response(&resp).unwrap().is_none());
}

#[test]
fn missing_login_return_is_a_shape_error() {
    let resp = Response { body: Element::node("loginResponse") };
    assert!(matches!(
        token_from_response(&resp),
        Err(RpcError::MissingElement { .. })
    ));
}

#[test]
fn logout_result_is_true_only_for_true_text() {
    let yes = Response {
        body: Element::node("r")
            .with_children(vec![Element::node("logoutReturn").with_text("true")]),
    };
    let no = Response {
        body: Element::node("r")
            .with_children(vec![Element::node("logoutReturn").with_text("false")]),
    };
    assert!(logout_result(&yes).unwrap());
    assert!(!logout_result(&no).unwrap());
}

#[test]
fn page_elements_keeps_order_and_optionals() {
    let items = page_elements("SP", "Title", "<b>hi</b>", Some(7), None, Some(3));
    let names: Vec<&str> = items.iter().map(|e| e.name.as_str()).collect();
    assert_eq!(names, vec!["space", "title", "content", "id", "parentId"]);
    assert_eq!(items[3].text.as_deref(), Some("7"));
}

#[test]
fn update_options_always_end_with_minor_edit() {
    let with_comment = update_option_elements(Some("tidy"), false);
    let names: Vec<&str> = with_comment.iter().map(|e| e.name.as_str()).collect();
    assert_eq!(names, vec!["versionComment", "minorEdit"]);
    assert_eq!(with_comment[1].text.as_deref(), Some("false"));
    let bare = update_option_elements(None, true);
    assert_eq!(bare.len(), 1);
    assert_eq!(bare[0].text.as_deref(), Some("true"));
}

#[test]
fn prepare_call_resolves_and_encodes() {
    let table = Wsdl {
        operations: vec![(
            "getSpace".to_string(),
            OperationBinding { url: "https://host/rpc".to_string(), soap_action: None },
        )],
    };
    let m = confluence::soap::Method::new("getSpace");
    let (url, envelope) = prepare_call(&table, &m).unwrap();
    assert_eq!(url, "https://host/rpc");
    assert!(envelope.contains("<getSpace/>"));
    let missing = confluence::soap::Method::new("nope");
    assert!(matches!(
        prepare_call(&table, &missing),
        Err(RpcError::UnknownOperation { name }) if name == "nope"
    ));
}

#[test]
fn action_falls_back_to_method_name() {
    let with_action = OperationBinding {
        url: "u".to_string(),
        soap_action: Some("declared".to_string()),
    };
    let without = OperationBinding { url: "u".to_string(), soap_action: None };
    assert_eq!(action_for(&with_action, "m"), "declared");
    assert_eq!(action_for(&without, "m"), "m");
}

#[test]
fn numeric_ids_render_as_decimal_text() {
    assert_eq!(render_i64(0), "0");
    assert_eq!(render_i64(123456), "123456");
    assert_eq!(render_i64(-42), "-42");
    assert_eq!(render_i64(i64::MAX), "9223372036854775807");
    assert_eq!(render_i64(i64::MIN), "-9223372036854775808");
}

#[test]
fn only_status_200_passes() {
    assert!(check_status(200).is_ok());
    assert!(matches!(
        check_status(404),
        Err(RpcError::TransportFailure { .. })
    ));
    assert!(matches!(check_status(500), Err(RpcError::TransportFailure { .. })));
}
