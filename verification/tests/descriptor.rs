use matter_clusters::clusters::descriptor::{
    cluster, cluster_full, cluster_with_tags, cluster_with_unique_id, Descriptor, SemanticTag, CLIENT_LIST, DEVICE_TYPE_LIST,
    ENDPOINT_UNIQUE_ID, ID, PARTS_LIST, SERVER_LIST, TAG_LIST,
};
use matter_clusters::dm::{ClusterDescriptor, DeviceType, Endpoint, Node};
use matter_clusters::im::{AttributeId, ClusterHandler, InteractionContext, Resolved, Status, WriteOp};
use matter_clusters::msg::VendorId;
use matter_clusters::platform::Instant;
use matter_clusters::tlv::Tag;

fn context() -> InteractionContext {
    InteractionContext::new(None, Instant { micros: 0 })
}

fn read(d: &Descriptor<'_>, endpoint: u16, attribute: AttributeId) -> Result<Vec<u8>, Status> {
    d.answer(&Resolved { endpoint, cluster: ID, attribute }, &context(), Tag::Context(0))
}

fn listed(d: &ClusterDescriptor) -> Vec<AttributeId> {
    d.attributes.iter().map(|a| a.id).collect()
}

#[test]
fn the_lists_are_the_endpoints_own() {
    let clusters = [cluster(), cluster()];
    let types = [DeviceType { device_type: 0x0016, revision: 3 }];
    let clients = [6, 8];
    let endpoints = [
        Endpoint::new(0, &clusters).with_device_types(&types).with_clients(&clients),
        Endpoint::new(1, &[]),
    ];
    let d = Descriptor::new(Node::new(&endpoints), 0).with_parts(&[1, 0x0102]);
    assert_eq!(
        read(&d, 0, DEVICE_TYPE_LIST),
        Ok(vec![0x36, 0x00, 0x15, 0x24, 0x00, 0x16, 0x24, 0x01, 0x03, 0x18, 0x18])
    );
    assert_eq!(read(&d, 0, SERVER_LIST), Ok(vec![0x36, 0x00, 0x04, 0x1D, 0x04, 0x1D, 0x18]));
    assert_eq!(read(&d, 0, CLIENT_LIST), Ok(vec![0x36, 0x00, 0x04, 6, 0x04, 8, 0x18]));
    assert_eq!(read(&d, 0, PARTS_LIST), Ok(vec![0x36, 0x00, 0x04, 0x01, 0x05, 0x02, 0x01, 0x18]));
    assert_eq!(d.device_types(), &types);
    assert_eq!(d.clients(), &clients);
}

#[test]
fn another_endpoint_is_not_described() {
    let endpoints = [Endpoint::new(0, &[])];
    let mut d = Descriptor::new(Node::new(&endpoints), 0);
    assert_eq!(read(&d, 1, DEVICE_TYPE_LIST), Err(Status::UnsupportedEndpoint));
    assert_eq!(read(&d, 0, 0x77), Err(Status::UnsupportedAttribute));
    let absent = Descriptor::new(Node::new(&endpoints), 5);
    assert_eq!(read(&absent, 5, SERVER_LIST), Err(Status::UnsupportedEndpoint));
    assert_eq!(read(&absent, 5, DEVICE_TYPE_LIST), Ok(vec![0x36, 0x00, 0x18]));
    let r = Resolved { endpoint: 0, cluster: ID, attribute: PARTS_LIST };
    assert_eq!(d.write(&r, &[0x16, 0x18], WriteOp::Replace, &context()), Err(Status::UnsupportedWrite));
}

#[test]
fn what_an_instance_has_is_what_it_lists() {
    let endpoints = [Endpoint::new(0, &[])];
    let plain = Descriptor::new(Node::new(&endpoints), 0);
    let tags = [
        SemanticTag { mfg_code: None, namespace_id: 7, tag: 1, label: None },
        SemanticTag { mfg_code: Some(VendorId(0xFFF1)), namespace_id: 8, tag: 2, label: Some("up") },
    ];
    assert_eq!(listed(&plain.descriptor()), [0, 1, 2, 3]);
    assert_eq!(read(&plain, 0, TAG_LIST), Err(Status::UnsupportedAttribute));
    assert_eq!(read(&plain, 0, ENDPOINT_UNIQUE_ID), Err(Status::UnsupportedAttribute));
    let tagged = plain.with_tags(&tags);
    assert_eq!(listed(&tagged.descriptor()), [0, 1, 2, 3, 4]);
    assert_eq!(tagged.descriptor().feature_map, 1);
    assert_eq!(
        read(&tagged, 0, TAG_LIST),
        Ok(vec![
            0x36, 0x00, 0x15, 0x34, 0x00, 0x24, 0x01, 0x07, 0x24, 0x02, 0x01, 0x18, 0x15, 0x25, 0x00, 0xF1, 0xFF, 0x24, 0x01,
            0x08, 0x24, 0x02, 0x02, 0x2C, 0x03, 0x02, b'u', b'p', 0x18, 0x18,
        ])
    );
    let full = tagged.with_unique_id("u1");
    assert_eq!(listed(&full.descriptor()), [0, 1, 2, 3, 4, 5]);
    assert_eq!(read(&full, 0, ENDPOINT_UNIQUE_ID), Ok(vec![0x2C, 0x00, 0x02, b'u', b'1']));
    let unique = Descriptor::new(Node::new(&endpoints), 0).with_unique_id("u1");
    assert_eq!(listed(&unique.descriptor()), [0, 1, 2, 3, 5]);
    assert_eq!(listed(&cluster_with_tags()), [0, 1, 2, 3, 4]);
    assert_eq!(listed(&cluster_with_unique_id()), [0, 1, 2, 3, 5]);
    assert_eq!(listed(&cluster_full()), [0, 1, 2, 3, 4, 5]);
}
