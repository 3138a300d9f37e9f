use confluence::errors::RpcError;
use confluence::wsdl::wsdl_from_text;

const WSDL: &str = "<wsdl:definitions>\
  <wsdl:binding name=\"confluenceBinding\">\
    <wsdl:operation name=\"login\">\
      <soap:operation soapAction=\"loginAction\"/>\
    </wsdl:operation>\
    <wsdl:operation name=\"logout\"/>\
  </wsdl:binding>\
  <wsdl:service>\
    <wsdl:port binding=\"confluenceBinding\">\
      <soap:address location=\"https://host/rpc\"/>\
    </wsdl:port>\
  </wsdl:service>\
</wsdl:definitions>";

#[test]
fn declared_operation_resolves_to_service_url() {
    let table = wsdl_from_text(WSDL).unwrap();
    let binding = table.resolve("login").unwrap();
    assert_eq!(binding.url, "https://host/rpc");
    assert_eq!(binding.soap_action.as_deref(), Some("loginAction"));
}

#[test]
fn operation_without_action_has_none() {
    let table = wsdl_from_text(WSDL).unwrap();
    let binding = table.resolve("logout").unwrap();
    assert_eq!(binding.url, "https://host/rpc");
    assert!(binding.soap_action.is_none());
}

#[test]
fn unknown_operation_is_its_own_error() {
    let table = wsdl_from_text(WSDL).unwrap();
    match table.resolve("missingOp") {
        Err(RpcError::UnknownOperation { name }) => assert_eq!(name, "missingOp"),
        other => panic!("expected UnknownOperation, got {:?}", other),
    }
}

#[test]
fn description_without_operations_is_rejected() {
    let text = "<definitions><service><port>\
                <address location=\"https://host/rpc\"/>\
                </port></service></definitions>";
    match wsdl_from_text(text) {
        Err(RpcError::MissingElement { segment, .. }) => assert_eq!(segment, "operation"),
        other => panic!("expected MissingElement, got {:?}", other),
    }
}

#[test]
fn description_without_address_is_rejected() {
    let text = "<definitions><binding><operation name=\"x\"/></binding></definitions>";
    match wsdl_from_text(text) {
        Err(RpcError::MissingElement { segment, .. }) => assert_eq!(segment, "address"),
        other => panic!("expected MissingElement, got {:?}", other),
    }
}

#[test]
fn malformed_description_is_rejected() {
    assert!(matches!(wsdl_from_text("<definitions>"), Err(RpcError::MalformedXml { .. })));
}
