use etpproto::capabilities::negotiate_endpoint_capabilities;
use etpproto::capabilities::negotiate_server_capabilities;
use etpproto::capabilities::negotiate_supported_data_object;
use etpproto::capabilities::negotiate_supported_protocol;
use etpproto::capabilities::CapabilityMap;
use etpproto::capabilities::Contact;
use etpproto::capabilities::DataObjectCapabilities;
use etpproto::capabilities::DataValue;
use etpproto::capabilities::EndpointCapabilityKind;
use etpproto::capabilities::ServerCapabilities;
use etpproto::capabilities::SupportedDataObject;
use etpproto::capabilities::SupportedProtocol;
use etpproto::capabilities::Version;
use etptypes::energistics::etp::v12::datatypes::data_value::DataValue as EtpDataValue;
use etptypes::energistics::etp::v12::datatypes::data_value::UnionBooleanIntLongFloatDoubleStringArrayOfBooleanArrayOfNullableBooleanArrayOfIntArrayOfNullableIntArrayOfLongArrayOfNullableLongArrayOfFloatArrayOfDoubleArrayOfStringArrayOfBytesBytesAnySparseArray as Item;

fn map(entries: Vec<(&str, DataValue)>) -> CapabilityMap {
    let mut m = CapabilityMap::new();
    for (k, v) in entries {
        m.insert(k.to_string(), v);
    }
    m
}

fn long_of(m: &CapabilityMap, k: &str) -> Option<i64> {
    match m.get(k) {
        Some(DataValue::Long(x)) => Some(*x),
        _ => None,
    }
}

fn bool_of(m: &CapabilityMap, k: &str) -> Option<bool> {
    match m.get(k) {
        Some(DataValue::Boolean(x)) => Some(*x),
        _ => None,
    }
}

#[test]
fn test_negotiation_numeric_scenario() {
    let a = map(vec![("ActiveTimeoutPeriod", DataValue::Long(666)), ("Nimp", DataValue::Long(2))]);
    let b = map(vec![
        ("ActiveTimeoutPeriod", DataValue::String("142".to_string())),
        ("Nimp", DataValue::Long(6)),
    ]);
    let r = negotiate_endpoint_capabilities(&a, &b);
    assert_eq!(long_of(&r, "ActiveTimeoutPeriod"), Some(142));
    assert_eq!(long_of(&r, "Nimp"), Some(2));
    assert_eq!(long_of(&r, "ChangePropagationPeriod"), Some(5));
    assert_eq!(long_of(&r, "ChangeRetentionPeriod"), Some(86400));
    assert_eq!(long_of(&r, "MaxConcurrentMultipart"), Some(1));
    assert_eq!(long_of(&r, "ResponseTimeoutPeriod"), Some(300));
    assert_eq!(long_of(&r, "RequestSessionTimeoutPeriod"), Some(45));
    assert_eq!(long_of(&r, "SessionEstablishmentTimeoutPeriod"), Some(3600));
    assert_eq!(bool_of(&r, "SupportsAlternateRequestUris"), Some(false));
    assert_eq!(bool_of(&r, "SupportsMessageHeaderExtensions"), Some(false));
    assert!(r.get("MaxPartSize").is_none());
    assert_eq!(r.len(), 10);
}

#[test]
fn test_negotiation_clamps_to_min_and_max() {
    let a = map(vec![
        ("ActiveTimeoutPeriod", DataValue::Int(10)),
        ("ChangePropagationPeriod", DataValue::Long(9000)),
        ("MultipartMessageTimeoutPeriod", DataValue::Long(120)),
    ]);
    let b = map(vec![
        ("ActiveTimeoutPeriod", DataValue::Long(30)),
        ("ChangePropagationPeriod", DataValue::Long(700)),
        ("MultipartMessageTimeoutPeriod", DataValue::String("+90".to_string())),
    ]);
    let r = negotiate_endpoint_capabilities(&a, &b);
    assert_eq!(long_of(&r, "ActiveTimeoutPeriod"), Some(60));
    assert_eq!(long_of(&r, "ChangePropagationPeriod"), Some(600));
    assert_eq!(long_of(&r, "MultipartMessageTimeoutPeriod"), Some(60));
}

#[test]
fn test_negotiation_booleans_and_mixed() {
    let a = map(vec![
        ("SupportsAlternateRequestUris", DataValue::Boolean(true)),
        ("SupportsMessageHeaderExtensions", DataValue::Boolean(true)),
        ("MaxPartSize", DataValue::String("lots".to_string())),
    ]);
    let b = map(vec![
        ("SupportsAlternateRequestUris", DataValue::Boolean(true)),
        ("SupportsMessageHeaderExtensions", DataValue::Long(1)),
        ("MaxPartSize", DataValue::Long(50000)),
    ]);
    let r = negotiate_endpoint_capabilities(&a, &b);
    assert_eq!(bool_of(&r, "SupportsAlternateRequestUris"), Some(true));
    // mixed types: dropped, then the default fills in
    assert_eq!(bool_of(&r, "SupportsMessageHeaderExtensions"), Some(false));
    // unreadable string: dropped, and the kind has no default
    assert!(r.get("MaxPartSize").is_none());
}

#[test]
fn test_negotiation_one_sided_kind_not_copied() {
    let a = map(vec![("MaxDataObjectSize", DataValue::Long(200000))]);
    let b = map(vec![("OnlyInB", DataValue::Long(1))]);
    let r = negotiate_endpoint_capabilities(&a, &b);
    assert!(r.get("MaxDataObjectSize").is_none());
    assert!(r.get("OnlyInB").is_none());
}

#[test]
fn test_kind_names() {
    assert_eq!(EndpointCapabilityKind::from_name("MaxPartSize"), Some(EndpointCapabilityKind::MaxPartSize));
    assert_eq!(EndpointCapabilityKind::from_name("MaxPartSizeX"), None);
    assert_eq!(EndpointCapabilityKind::all().len(), 17);
    assert_eq!(EndpointCapabilityKind::ActiveTimeoutPeriod.min(), Some(60));
    assert_eq!(EndpointCapabilityKind::ChangePropagationPeriod.max(), Some(600));
    assert!(EndpointCapabilityKind::MaxPartSize.default().is_none());
}

#[test]
fn test_data_object_capabilities_iter() {
    let names: Vec<String> = DataObjectCapabilities::iter().iter().map(|c| c.to_string()).collect();
    assert_eq!(names, vec!["SupportsGet", "SupportsPut", "SupportsDelete"]);
    assert_eq!(DataObjectCapabilities::from_name("SupportsPut"), Some(DataObjectCapabilities::SupportsPut));
    assert_eq!(DataObjectCapabilities::from_name("SupportsPost"), None);
}

fn sdo(t: &str, caps: Vec<(&str, DataValue)>) -> SupportedDataObject {
    SupportedDataObject { qualified_type: t.to_string(), data_object_capabilities: map(caps) }
}

#[test]
fn test_negotiate_supported_data_object() {
    let me = vec![
        sdo("resqml20.obj_Grid", vec![
            ("SupportsGet", DataValue::Boolean(true)),
            ("SupportsPut", DataValue::Boolean(true)),
            ("SupportsDelete", DataValue::Boolean(false)),
        ]),
        sdo("witsml20.Well", vec![("SupportsGet", DataValue::Boolean(true))]),
    ];
    let target = vec![
        sdo("witsml20.Well", vec![("SupportsGet", DataValue::Boolean(true))]),
        sdo("resqml20.obj_Grid", vec![
            ("SupportsGet", DataValue::Boolean(true)),
            ("SupportsPut", DataValue::Boolean(false)),
            ("Other", DataValue::Boolean(true)),
        ]),
    ];
    let r = negotiate_supported_data_object(&me, &target);
    assert_eq!(r.len(), 2);
    assert_eq!(r[0].qualified_type, "resqml20.obj_Grid");
    assert_eq!(bool_of(&r[0].data_object_capabilities, "SupportsGet"), Some(true));
    assert_eq!(bool_of(&r[0].data_object_capabilities, "SupportsPut"), Some(false));
    assert!(r[0].data_object_capabilities.get("SupportsDelete").is_none());
    assert!(r[0].data_object_capabilities.get("Other").is_none());
    assert_eq!(r[1].qualified_type, "witsml20.Well");
    assert_eq!(bool_of(&r[1].data_object_capabilities, "SupportsGet"), Some(true));
}

fn sp(p: i32, role: &str, caps: Vec<(&str, DataValue)>) -> SupportedProtocol {
    SupportedProtocol {
        protocol: p,
        protocol_version: Version { major: 1, minor: 2, revision: 0, patch: 0 },
        role: role.to_string(),
        protocol_capabilities: map(caps),
    }
}

#[test]
fn test_negotiate_supported_protocol() {
    let me = vec![sp(3, "store", vec![("MaxPartSize", DataValue::Long(20000))]), sp(4, "store", vec![])];
    let target = vec![sp(3, "store", vec![("MaxPartSize", DataValue::Long(30000))]), sp(4, "customer", vec![])];
    let r = negotiate_supported_protocol(&me, &target);
    assert_eq!(r.len(), 1);
    assert_eq!(r[0].protocol, 3);
    assert_eq!(r[0].role, "store");
    assert_eq!(long_of(&r[0].protocol_capabilities, "MaxPartSize"), Some(20000));
}

fn server(name: &str, compression: Vec<&str>) -> ServerCapabilities {
    ServerCapabilities {
        application_name: name.to_string(),
        application_version: "1.0".to_string(),
        contact_information: Contact {
            organization_name: format!("{} org", name),
            contact_name: "n".to_string(),
            contact_phone: "p".to_string(),
            contact_email: "e".to_string(),
        },
        supported_compression: compression.into_iter().map(|s| s.to_string()).collect(),
        supported_encodings: vec!["binary".to_string()],
        supported_formats: vec!["xml".to_string(), "json".to_string()],
        supported_data_objects: vec![],
        supported_protocols: vec![],
        endpoint_capabilities: map(vec![("ActiveTimeoutPeriod", DataValue::Long(100))]),
    }
}

#[test]
fn test_negotiate_server_capabilities() {
    let me = server("me", vec!["gzip", "zstd", "gzip"]);
    let peer = server("peer", vec!["zstd", "gzip", "lz4"]);
    let r = negotiate_server_capabilities(&me, &peer);
    assert_eq!(r.application_name, "peer");
    assert_eq!(r.contact_information.organization_name, "peer org");
    assert_eq!(r.supported_compression, vec!["gzip".to_string(), "zstd".to_string()]);
    assert_eq!(r.supported_encodings, vec!["binary".to_string()]);
    assert_eq!(r.supported_formats.len(), 2);
    assert_eq!(long_of(&r.endpoint_capabilities, "ActiveTimeoutPeriod"), Some(100));
}

#[test]
fn test_capability_map_insert_replaces() {
    let mut m = map(vec![("A", DataValue::Long(1)), ("B", DataValue::Long(2))]);
    m.insert("A".to_string(), DataValue::Long(3));
    assert_eq!(m.len(), 2);
    assert_eq!(long_of(&m, "A"), Some(3));
    assert!(m.contains_key("B"));
    assert!(!m.contains_key("C"));
    let (k, _) = m.entry(1);
    assert_eq!(k, "B");
}

#[test]
fn test_unknown_key_passes_through_unread_value() {
    let raw = EtpDataValue { item: Some(Item::Bytes(vec![1, 2, 3])) };
    let real = EtpDataValue { item: Some(Item::Double(2.5)) };
    let a = map(vec![
        ("Blob", DataValue::Other(raw.clone())),
        ("Ratio", DataValue::Real(2, real.clone())),
    ]);
    let b = map(vec![("Blob", DataValue::Long(1))]);
    let r = negotiate_endpoint_capabilities(&a, &b);
    assert!(matches!(r.get("Blob"), Some(DataValue::Other(v)) if *v == raw));
    assert!(matches!(r.get("Ratio"), Some(DataValue::Real(2, v)) if *v == real));
}

#[test]
fn test_real_values_negotiate_by_integer_part() {
    let a = map(vec![("ResponseTimeoutPeriod", DataValue::Real(120, EtpDataValue { item: None }))]);
    let b = map(vec![("ResponseTimeoutPeriod", DataValue::Long(400))]);
    let r = negotiate_endpoint_capabilities(&a, &b);
    assert_eq!(long_of(&r, "ResponseTimeoutPeriod"), Some(120));
}
