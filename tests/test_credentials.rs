use etpproto::capabilities::CapabilityMap;
use etpproto::capabilities::DataValue;
use etpproto::credentials::BasicCredential;
use etpproto::credentials::ClientInfo;
use etpproto::credentials::Credentials;
use etpproto::credentials::IdCounter;

#[test]
fn test_client_info_uid() {
    let mut counter = IdCounter::new();
    let ci_0 = ClientInfo::with_uid(counter.unique_id().unwrap(), None, None, None);
    let ci_1 = ClientInfo::with_uid(counter.unique_id().unwrap(), None, None, None);

    assert_ne!(ci_0.uid, ci_1.uid);
}

#[test]
fn test_client_info_values() {
    let mut counter = IdCounter::new();
    let ci_0 = ClientInfo::with_uid(
        counter.unique_id().unwrap(),
        Some("192.168.0.1".to_string()),
        Some(Credentials::Basic(BasicCredential {
            login: "admin".to_string(),
            password: "password".to_string(),
        })),
        None,
    );
    assert_eq!(ci_0.ip.unwrap(), "192.168.0.1".to_string());
    match ci_0.credentials.unwrap() {
        Credentials::Basic(basic) => {
            assert_eq!(basic.login, "admin".to_string());
            assert_eq!(basic.password, "password".to_string())
        }
        Credentials::Bearer(_) => panic!("Wrong type"),
    };
    assert_eq!(ci_0.capabilities.len(), 0);
}

#[test]
fn test_unique_ids_strictly_increase() {
    let mut counter = IdCounter::new();
    let a = counter.unique_id().unwrap();
    let b = counter.unique_id().unwrap();
    let c = counter.unique_id().unwrap();
    assert_eq!(a, 0);
    assert!(a < b && b < c);
}

#[test]
fn test_client_info_keeps_given_capabilities() {
    let mut caps = CapabilityMap::new();
    caps.insert("MaxPartSize".to_string(), DataValue::Long(20000));
    let ci = ClientInfo::with_uid(7, None, None, Some(caps));
    assert_eq!(ci.uid, 7);
    assert_eq!(ci.capabilities.len(), 1);
    assert!(matches!(ci.capabilities.get("MaxPartSize"), Some(DataValue::Long(20000))));
}
