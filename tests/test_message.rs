use etpproto::header::MessageHeader;
use etpproto::message::decode_frame;
use etpproto::message::decode_multipart_message;
use etpproto::message::MultipartError;
use etpproto::message::encode_frame;
use etpproto::message::EtpMessage;
use etpproto::message::MessageHeaderFlag;
use etpproto::message::MSG_FLAG_ACKNOWLEDGE;
use etpproto::message::MSG_FLAG_COMPRESSED;
use etpproto::message::MSG_FLAG_FINAL;
use etpproto::message::MSG_FLAG_HEADER_EXTENSION;
use etptypes::energistics::etp::v12::datatypes::message_header::MessageHeader as EtpHeader;
use etptypes::energistics::etp::v12::datatypes::object::active_status_kind::ActiveStatusKind;
use etptypes::energistics::etp::v12::datatypes::object::context_info::ContextInfo;
use etptypes::energistics::etp::v12::datatypes::object::context_scope_kind::ContextScopeKind;
use etptypes::energistics::etp::v12::datatypes::object::data_object::DataObject;
use etptypes::energistics::etp::v12::datatypes::object::relationship_kind::RelationshipKind;
use etptypes::energistics::etp::v12::datatypes::object::resource::Resource;
use etptypes::energistics::etp::v12::datatypes::protocol::Protocol;
use etptypes::energistics::etp::v12::datatypes::supported_protocol::SupportedProtocol;
use etptypes::energistics::etp::v12::datatypes::uuid::random_uuid;
use etptypes::energistics::etp::v12::protocol;
use etptypes::energistics::etp::v12::protocol::discovery::get_resources::GetResources;
use etptypes::energistics::etp::v12::protocol::store::put_data_objects::PutDataObjects;
use etptypes::helpers::time_to_etp;
use etptypes::helpers::ETP12VERSION;
use etptypes::protocols::avro_decode;
use etptypes::protocols::ProtocolMessage;
use std::collections::HashMap;
use std::time::SystemTime;

#[test]
fn test_message_flags_0() {
    let full_0: MessageHeaderFlag = MessageHeaderFlag {
        msg_final: false,
        msg_compressed: false,
        msg_aknowledge: false,
        msg_has_header_extension: false,
        msg_multipart: false,
        msg_no_data: false,
    };

    assert_eq!(full_0, full_0);

    let int_rep: i32 = full_0.as_i32();

    assert_eq!(int_rep, 0);
}

#[test]
fn test_message_flags_0_parse() {
    let full_0: MessageHeaderFlag = MessageHeaderFlag {
        msg_final: false,
        msg_compressed: false,
        msg_aknowledge: false,
        msg_multipart: false,
        msg_no_data: false,
        msg_has_header_extension: false,
    };
    assert_eq!(full_0, MessageHeaderFlag::parse(full_0.as_i32()));
}

#[test]
fn test_message_flags_1() {
    let full_1: MessageHeaderFlag = MessageHeaderFlag {
        msg_final: true,
        msg_compressed: true,
        msg_aknowledge: true,
        msg_has_header_extension: true,
        msg_multipart: false,
        msg_no_data: false,
    };

    assert_eq!(full_1, full_1);

    let int_rep: i32 = full_1.as_i32();

    assert_eq!(
        int_rep,
        MSG_FLAG_FINAL | MSG_FLAG_COMPRESSED | MSG_FLAG_ACKNOWLEDGE | MSG_FLAG_HEADER_EXTENSION
    );
    assert_eq!(int_rep, 0x3A);
}

#[test]
fn test_message_flags_1_parse() {
    let full_1: MessageHeaderFlag = MessageHeaderFlag {
        msg_final: true,
        msg_compressed: true,
        msg_aknowledge: true,
        msg_has_header_extension: true,
        msg_multipart: false,
        msg_no_data: false,
    };
    assert_eq!(full_1, MessageHeaderFlag::parse(full_1.as_i32()));
}

#[test]
fn test_message_flags_mix_as_int32() {
    let full_1: MessageHeaderFlag = MessageHeaderFlag {
        msg_final: true,
        msg_compressed: false,
        msg_aknowledge: true,
        msg_multipart: false,
        msg_no_data: false,
        msg_has_header_extension: false,
    };
    let int_rep = full_1.as_i32();

    assert_eq!((int_rep & MSG_FLAG_FINAL), MSG_FLAG_FINAL);
    assert_eq!((int_rep & MSG_FLAG_COMPRESSED), 0);
    assert_eq!((int_rep & MSG_FLAG_ACKNOWLEDGE), MSG_FLAG_ACKNOWLEDGE);
    assert_eq!((int_rep & MSG_FLAG_HEADER_EXTENSION), 0);
}

#[test]
fn test_message_flags_mix_parse() {
    let full_1: MessageHeaderFlag = MessageHeaderFlag {
        msg_final: true,
        msg_compressed: false,
        msg_aknowledge: true,
        msg_has_header_extension: false,
        msg_multipart: false,
        msg_no_data: false,
    };
    let int_rep = full_1.as_i32();
    let full_1_parsed: MessageHeaderFlag = MessageHeaderFlag::parse(int_rep);

    assert_eq!(full_1_parsed.msg_final, true);
    assert_eq!(full_1_parsed.msg_compressed, false);
    assert_eq!(full_1_parsed.msg_aknowledge, true);
    assert_eq!(full_1_parsed.msg_has_header_extension, false);
}

#[test]
fn test_message_flags_round_trip_all() {
    for bits in 0..64 {
        let f = MessageHeaderFlag::parse(bits);
        assert_eq!(f.as_i32(), bits);
        assert_eq!(MessageHeaderFlag::parse(f.as_i32()), f);
    }
}

#[test]
fn test_default_flags_are_final() {
    let f = MessageHeaderFlag::default();
    assert_eq!(f.as_i32(), MSG_FLAG_FINAL);
}

#[test]
fn test_message_compression_request_session() {
    let req_sess = get_request_session();

    let msg_compressed = &EtpMessage::create_message(0, 1, MSG_FLAG_FINAL | MSG_FLAG_COMPRESSED, ProtocolMessage::Core_RequestSession(req_sess.clone()), None).encode_message().unwrap()[0];
    let msg = &EtpMessage::create_message(0, 1, MSG_FLAG_FINAL, ProtocolMessage::Core_RequestSession(req_sess), None).encode_message().unwrap()[0];

    assert_eq!(msg_compressed.len(), msg.len());
    assert_eq!(msg_compressed[4], msg[4]);
    assert!(msg_compressed.iter().eq(msg.iter()));
}

#[test]
fn test_message_compression_get_resources() {
    let getress = GetResources::default_with_params(
        ContextInfo {
            uri: "eml:///".to_string(),
            depth: 1 as i32,
            data_object_types: vec![],
            navigable_edges: RelationshipKind::Both,
            include_secondary_targets: false,
            include_secondary_sources: false,
        },
        ContextScopeKind::Self_,
        None,
        None,
    );

    let msg_compressed = &EtpMessage::create_message(0, 1, MSG_FLAG_FINAL | MSG_FLAG_COMPRESSED, getress.as_protocol_message(), None).encode_message().unwrap()[0];
    let msg = &EtpMessage::create_message(0, 1, MSG_FLAG_FINAL, getress.as_protocol_message(), None).encode_message().unwrap()[0];

    assert!(msg_compressed[4] != msg[4]);
}

#[test]
fn test_message_compression_put_dataobject() {
    let pdo = get_put_data_objects();

    let msg_compressed = &EtpMessage::create_message(0, 1, MSG_FLAG_FINAL | MSG_FLAG_COMPRESSED, pdo.as_protocol_message(), None).encode_message().unwrap()[0];
    let msg = &EtpMessage::create_message(0, 1, MSG_FLAG_FINAL, pdo.as_protocol_message(), None).encode_message().unwrap()[0];

    assert!(msg_compressed[4] != msg[4]);
}

#[test]
fn test_put_dataobject_frames_decode_to_equal_body() {
    let pdo = get_put_data_objects();
    let compressed = &EtpMessage::create_message(0, 1, MSG_FLAG_FINAL | MSG_FLAG_COMPRESSED, pdo.as_protocol_message(), None).encode_message().unwrap()[0];
    let plain = &EtpMessage::create_message(0, 1, MSG_FLAG_FINAL, pdo.as_protocol_message(), None).encode_message().unwrap()[0];
    assert!(compressed.len() < plain.len());
    assert_ne!(compressed[5..], plain[5..]);
    for frame in [compressed, plain] {
        let decoded = decode_frame(frame).unwrap();
        assert_eq!(decoded.header.protocol, 4);
        assert_eq!(decoded.header.message_type, 2);
        let payload = decoded.payload.unwrap();
        let etp_header = EtpHeader {
            protocol: decoded.header.protocol,
            message_type: decoded.header.message_type,
            correlation_id: decoded.header.correlation_id,
            message_id: decoded.header.message_id,
            message_flags: decoded.header.message_flags,
        };
        let body = avro_decode(&etp_header, &mut payload.as_slice()).unwrap();
        assert_eq!(body, pdo.as_protocol_message());
    }
}

#[test]
fn test_create_message_takes_identity_from_body() {
    let pdo = get_put_data_objects();
    let m = EtpMessage::create_message(7, 9, MSG_FLAG_FINAL, pdo.as_protocol_message(), None);
    assert_eq!(m.header.protocol, 4);
    assert_eq!(m.header.message_type, 2);
    assert_eq!(m.header.correlation_id, 7);
    assert_eq!(m.header.message_id, 9);
    assert_eq!(m.header.message_flags, MSG_FLAG_FINAL);
}

#[test]
fn test_encode_frame_reserved_bits_kept() {
    let h = MessageHeader { protocol: 0, message_type: 8, correlation_id: 0, message_id: 3, message_flags: 0x40 | MSG_FLAG_FINAL | MSG_FLAG_COMPRESSED };
    let frame = encode_frame(&h, &vec![], &vec![1, 2, 3]);
    let decoded = decode_frame(&frame).unwrap();
    assert_eq!(decoded.header.message_flags, 0x40 | MSG_FLAG_FINAL);
    assert_eq!(decoded.payload.unwrap(), vec![1, 2, 3]);
}

#[test]
fn test_encode_frame_gzips_allowed_body() {
    let h = MessageHeader { protocol: 4, message_type: 2, correlation_id: 0, message_id: 3, message_flags: MSG_FLAG_FINAL | MSG_FLAG_COMPRESSED };
    let body: Vec<u8> = b"abcabcabcabcabcabcabcabcabcabcabcabcabcabc".to_vec();
    let frame = encode_frame(&h, &vec![], &body);
    assert_eq!(frame[4], (MSG_FLAG_FINAL | MSG_FLAG_COMPRESSED) as u8 * 2);
    assert_eq!(frame[5], 0x1f);
    assert_eq!(frame[6], 0x8b);
    let decoded = decode_frame(&frame).unwrap();
    assert_eq!(decoded.payload.unwrap(), body);
}

#[test]
fn test_encode_frame_type_1000_not_compressed() {
    let h = MessageHeader { protocol: 4, message_type: 1000, correlation_id: 0, message_id: 3, message_flags: MSG_FLAG_FINAL | MSG_FLAG_COMPRESSED };
    let frame = encode_frame(&h, &vec![9], &vec![1, 2]);
    assert_eq!(frame[..6].to_vec(), vec![8, 0xd0, 0x0f, 0, 6, (MSG_FLAG_FINAL as u8) * 2]);
    assert_eq!(frame[6..].to_vec(), vec![9, 1, 2]);
}

#[test]
fn test_decode_frame_corrupt_gzip_keeps_header() {
    let h = MessageHeader { protocol: 3, message_type: 1, correlation_id: 5, message_id: 6, message_flags: MSG_FLAG_FINAL | MSG_FLAG_COMPRESSED };
    let mut frame = h.encode();
    frame.extend_from_slice(&[1, 2, 3, 4]);
    let decoded = decode_frame(&frame).unwrap();
    assert_eq!(decoded.header, h);
    assert!(decoded.payload.is_none());
}

#[test]
fn test_decode_frame_without_header() {
    assert!(decode_frame(&vec![]).is_none());
    assert!(decode_frame(&vec![0x80, 0x80]).is_none());
}

fn get_put_data_objects() -> PutDataObjects {
    PutDataObjects {
        data_objects: HashMap::from([(
            "0".to_string(),
            DataObject {
                resource: Resource::default_with_params(
                    "eml:///resqml22.HorizonInterpretation(489f074b-744e-45ce-a03b-521459f35415)".to_string(),
                    Some(0),
                    Some(0),
                    0,
                    0,
                    0,
                    ActiveStatusKind::Active,
                ),
                format: "xml".to_string(),
                blob_id: Some(random_uuid()),
                data: br#"
<ns2:HorizonInterpretation xmlns="http://www.energistics.org/energyml/data/commonv2" xmlns:ns2="http://www.energistics.org/energyml/data/resqmlv2" xmlns:ns3="http://www.w3.org/1999/xlink" xmlns:ns4="http://www.opengis.net/gml/3.2" xmlns:ns5="http://www.isotc211.org/2005/gco" xmlns:ns6="http://www.isotc211.org/2005/gmd" schemaVersion="2.0" uuid="489f074b-744e-45ce-a03b-521459f35415">
    <Citation>
        <Title>Interp_Hugin_Fm_Top</Title>
        <Originator>ATsoblefack</Originator>
        <Creation>2019-01-03T16:24:18Z</Creation>
        <Format>Paradigm SKUA-GOCAD 19 Alpha 2 Build://skua-gocad/Production/trunk - 20190322-cl867561 for Win_x64_6.1_v15</Format>
        <Editor>ATsoblefack</Editor>
        <LastUpdate>2022-08-03T07:31:38.106Z</LastUpdate>
    </Citation>
    <ns2:ExtraMetadata>
        <ns2:Name>pdgm/dx/resqml/creatorGroup</ns2:Name>
        <ns2:Value>ATsoblefack</ns2:Value>
    </ns2:ExtraMetadata>
    <ns2:ExtraMetadata>
        <ns2:Name>pdgm/dx/resqml/project</ns2:Name>
        <ns2:Value>79ae8a84-c896-46f8-81cf-c9a689c5352d</ns2:Value>
    </ns2:ExtraMetadata>
    <ns2:Domain>depth</ns2:Domain>
    <ns2:InterpretedFeature>
        <ContentType>application/x-resqml+xml;version=2.0;type=obj_GeneticBoundaryFeature</ContentType>
        <Title>Hugin_Fm_Top</Title>
        <UUID>5fa99eb4-b11f-4f08-b1be-2d64ff14286f</UUID>
        <UuidAuthority>pdgm</UuidAuthority>
    </ns2:InterpretedFeature>
    <ns2:BoundaryRelation>conformable</ns2:BoundaryRelation>
</ns2:HorizonInterpretation>
"#
                .to_vec(),
            },
        )]),
        prune_contained_objects: true,
    }
}

fn get_request_session() -> protocol::core::request_session::RequestSession {
    let protocols: Vec<SupportedProtocol> = vec![
        SupportedProtocol {
            protocol: Protocol::Core as i32,
            protocol_version: ETP12VERSION,
            role: "Server".to_string(),
            protocol_capabilities: HashMap::new(),
        },
        SupportedProtocol {
            protocol: 3,
            protocol_version: ETP12VERSION,
            role: "Server".to_string(),
            protocol_capabilities: HashMap::new(),
        },
        SupportedProtocol {
            protocol: 4,
            protocol_version: ETP12VERSION,
            role: "Server".to_string(),
            protocol_capabilities: HashMap::new(),
        },
    ];

    let now: SystemTime = SystemTime::now();

    protocol::core::request_session::RequestSession {
        application_name: "etp-rs Client Library Application".to_string(),
        application_version: "0.1".to_string(),
        client_instance_id: random_uuid(),
        requested_protocols: protocols,
        supported_data_objects: vec![],
        supported_compression: vec!["gzip".to_string()],
        supported_formats: vec!["xml".to_string(), "json".to_string()],
        current_date_time: time_to_etp(now),
        earliest_retained_change_time: time_to_etp(now),
        server_authorization_required: false,
        endpoint_capabilities: HashMap::new(),
    }
}

fn part(id: i64, flags: i32, body: &[u8]) -> Vec<u8> {
    let h = MessageHeader { protocol: 3, message_type: 4, correlation_id: 40, message_id: id, message_flags: flags };
    encode_frame(&h, &vec![], &body.to_vec())
}

#[test]
fn test_multipart_sorted_and_joined() {
    let parts = vec![part(7, 0x03, b"ef"), part(5, 0x01, b"ab"), part(6, 0x01, b"cd")];
    let joined = decode_multipart_message(&parts).unwrap();
    assert_eq!(joined.header.message_id, 5);
    assert_eq!(joined.payload.unwrap(), b"abcdef".to_vec());
}

#[test]
fn test_multipart_gap_is_an_error() {
    let parts = vec![part(5, 0x01, b"ab"), part(7, 0x03, b"ef")];
    assert_eq!(decode_multipart_message(&parts).err(), Some(MultipartError::MissingPart(1)));
}

#[test]
fn test_multipart_needs_final_part() {
    let parts = vec![part(5, 0x01, b"ab"), part(6, 0x01, b"cd")];
    assert_eq!(decode_multipart_message(&parts).err(), Some(MultipartError::NotFinished));
}

#[test]
fn test_multipart_empty_and_unreadable() {
    assert_eq!(decode_multipart_message(&vec![]).err(), Some(MultipartError::NoParts));
    let parts = vec![part(5, 0x03, b"ab"), vec![0x80]];
    assert_eq!(decode_multipart_message(&parts).err(), Some(MultipartError::UnreadablePart(1)));
}
