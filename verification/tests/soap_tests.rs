use confluence::errors::RpcError;
use confluence::soap::{decode, encode, Method};
use confluence::tree::Element;

fn get_space_method() -> Method {
    Method::new("getSpace")
        .with(Element::node("token").with_text("T"))
        .with(Element::node("spaceKey").with_text("DEMO"))
}

#[test]
fn encode_wraps_method_under_envelope_and_body() {
    let wire = encode(&get_space_method(), "https://host/rpc");
    assert!(wire.contains("<getSpace><token>T</token><spaceKey>DEMO</spaceKey></getSpace>"));
    assert!(wire.starts_with("<Envelope><Body>"));
    assert!(wire.ends_with("</Body></Envelope>"));
}

#[test]
fn end_to_end_encode_then_decode_and_navigate() {
    let wire = encode(&get_space_method(), "https://host/rpc");
    assert_eq!(
        wire,
        "<Envelope><Body><getSpace><token>T</token><spaceKey>DEMO</spaceKey></getSpace></Body></Envelope>"
    );
    let canned = "<Envelope><Body><getSpaceResponse><getSpaceReturn><key>DEMO</key>\
                  </getSpaceReturn></getSpaceResponse></Body></Envelope>";
    let resp = decode(canned).unwrap();
    let key = resp.body.descend(&["getSpaceReturn", "key"]).unwrap();
    assert_eq!(key.text.as_deref(), Some("DEMO"));
}

#[test]
fn decode_surfaces_fault_as_remote_fault() {
    let canned = "<Envelope><Body><Fault><faultcode>soap:Server</faultcode>\
                  <faultstring>page not found</faultstring></Fault></Body></Envelope>";
    match decode(canned) {
        Err(RpcError::RemoteFault { code, message }) => {
            assert_eq!(code, "soap:Server");
            assert_eq!(message, "page not found");
        }
        other => panic!("expected RemoteFault, got {:?}", other),
    }
}

#[test]
fn decode_detects_namespaced_fault_marker() {
    let canned = "<soapenv:Envelope><soapenv:Body><soapenv:Fault>\
                  <faultcode>f</faultcode><faultstring>m</faultstring>\
                  </soapenv:Fault></soapenv:Body></soapenv:Envelope>";
    assert!(matches!(decode(canned), Err(RpcError::RemoteFault { .. })));
}

#[test]
fn decode_rejects_unterminated_body_as_malformed() {
    match decode("<Envelope><Body>") {
        Err(RpcError::MalformedXml { .. }) => {}
        other => panic!("expected MalformedXml, got {:?}", other),
    }
}

#[test]
fn decode_reports_missing_body() {
    match decode("<Envelope><Header/></Envelope>") {
        Err(RpcError::MissingElement { segment, available }) => {
            assert_eq!(segment, "Body");
            assert_eq!(available, vec!["Header".to_string()]);
        }
        other => panic!("expected MissingElement, got {:?}", other),
    }
}

#[test]
fn decode_reports_wrong_root() {
    match decode("<NotAnEnvelope/>") {
        Err(RpcError::MissingElement { segment, available }) => {
            assert_eq!(segment, "Envelope");
            assert_eq!(available, vec!["NotAnEnvelope".to_string()]);
        }
        other => panic!("expected MissingElement, got {:?}", other),
    }
}

#[test]
fn decode_unwraps_namespaced_envelope() {
    let canned = "<soapenv:Envelope><soapenv:Body><r><v>1</v></r></soapenv:Body></soapenv:Envelope>";
    let resp = decode(canned).unwrap();
    assert_eq!(resp.body.name, "r");
    assert_eq!(resp.body.descend(&["v"]).unwrap().text.as_deref(), Some("1"));
}
