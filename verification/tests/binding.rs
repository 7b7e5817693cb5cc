use matter_clusters::clusters::binding::{cluster, Binding, Target, BINDING, ID};
use matter_clusters::dm::{AttributeQualities, Privilege};
use matter_clusters::im::{ClusterHandler, InteractionContext, Lifecycle, Resolved, Status, WriteOp};
use matter_clusters::msg::{FabricIndex, GroupId, NodeId};
use matter_clusters::platform::Instant;
use matter_clusters::tlv::Tag;

type Table = Binding<8>;

const F1: FabricIndex = FabricIndex(1);
const F2: FabricIndex = FabricIndex(2);
const BULB: NodeId = NodeId(0x0000_0000_0006_F1F1);

#[test]
fn a_binding_is_unicast_or_groupcast_and_never_both() {
    let both = Target {
        fabric_index: F1,
        node: Some(BULB),
        group: Some(GroupId(7)),
        endpoint: Some(1),
        cluster: None,
    };
    assert!(!both.is_valid());

    assert!(Target::unicast(F1, BULB, 1).is_valid());
    assert!(Target::groupcast(F1, GroupId(7)).is_valid());
}

#[test]
fn an_endpoint_without_a_node_names_nothing() {
    let orphan = Target {
        fabric_index: F1,
        node: None,
        group: None,
        endpoint: Some(1),
        cluster: None,
    };
    assert!(!orphan.is_valid());
}

#[test]
fn an_empty_target_is_a_relationship_with_nobody() {
    assert!(!Target::default().is_valid());
}

#[test]
fn a_target_naming_an_identifier_that_cannot_exist_is_refused() {
    assert!(
        !Target::groupcast(F1, GroupId(1))
            .with_cluster(0xFFFF_FFFF)
            .is_valid(),
        "a cluster's prefix is never 0xFFFF"
    );
    assert!(
        !Target::groupcast(F1, GroupId(1))
            .with_cluster(0x0000_8000)
            .is_valid(),
        "the gap between a standard cluster and a manufacturer-specific one"
    );
    assert!(
        !Target::unicast(F1, NodeId(456_789), 0xFFFF).is_valid(),
        "0xFFFF is not an endpoint number"
    );
    assert!(
        Target::groupcast(F1, GroupId(1))
            .with_cluster(0xFFF1_FC00)
            .is_valid()
    );
    assert!(Target::unicast(F1, NodeId(456_789), 0xFFFE).is_valid());
}

#[test]
fn a_cluster_narrows_either_kind() {
    let switch = Target::groupcast(F1, GroupId(1234));
    assert!(switch.is_valid() && switch.is_groupcast());

    let sensor = Target::unicast(F1, NodeId(456_789), 3).with_cluster(1026);
    assert!(sensor.is_valid());
    assert_eq!(sensor.cluster, Some(1026));
    assert!(!sensor.is_groupcast());
}

#[test]
fn the_binding_attribute_carries_every_quality_of_its_access_column() {
    let descriptor = cluster();
    assert_eq!(descriptor.id, 0x001E);
    let attribute = descriptor.attribute(BINDING).expect("Binding");
    assert_eq!(attribute.access.read, Some(Privilege::View));
    assert_eq!(attribute.access.write, Some(Privilege::Manage));
    assert!(attribute.access.is_fabric_scoped(), "the `F`");
    assert!(
        attribute
            .qualities
            .contains(AttributeQualities::non_volatile()),
        "the `N`"
    );
}

#[test]
fn a_fabrics_quota_is_its_own() {
    let mut table = Table::new(2);
    table.add(Target::unicast(F1, BULB, 1)).expect("first");
    table.add(Target::unicast(F1, BULB, 2)).expect("second");
    assert_eq!(
        table.add(Target::unicast(F1, BULB, 3)).unwrap_err(),
        Status::ResourceExhausted
    );
    table
        .add(Target::unicast(F2, BULB, 1))
        .expect("another fabric has its own quota");
}

#[test]
fn removing_a_fabric_takes_its_bindings() {
    let mut table = Table::new(4);
    table.add(Target::unicast(F1, BULB, 1)).expect("add");
    table.add(Target::unicast(F2, BULB, 1)).expect("add");
    table.remove_fabric(F1);
    assert_eq!(table.len_of_fabric(F1), 0);
    assert_eq!(table.len_of_fabric(F2), 1, "another fabric is untouched");
}

#[test]
fn a_binding_on_no_fabric_is_refused() {
    let mut table = Table::new(4);
    assert_eq!(
        table
            .add(Target::unicast(FabricIndex(0), BULB, 1))
            .unwrap_err(),
        Status::ConstraintError
    );
}

fn on(fabric: FabricIndex) -> InteractionContext {
    InteractionContext::new(Some(fabric), Instant { micros: 0 })
}

fn list() -> Resolved {
    Resolved { endpoint: 1, cluster: ID, attribute: BINDING }
}

#[test]
fn what_is_written_is_read_back() {
    let mut table = Table::new(4);
    // One target: group 7, cluster 6.
    let written = [0x16, 0x15, 0x24, 0x02, 0x07, 0x24, 0x04, 0x06, 0x18, 0x18];
    assert_eq!(table.write(&list(), &written, WriteOp::Replace, &on(F1)), Ok(()));
    assert_eq!(table.targets(), &[Target::groupcast(F1, GroupId(7)).with_cluster(6)]);
    assert_eq!(
        table.answer(&list(), &on(F1), Tag::Context(0)),
        Ok(vec![0x36, 0x00, 0x15, 0x24, 0x02, 0x07, 0x24, 0x04, 0x06, 0x24, 0xFE, 0x01, 0x18, 0x18])
    );
}

#[test]
fn a_refused_write_changes_nothing() {
    let mut table = Table::new(1);
    table.add(Target::unicast(F1, BULB, 1)).expect("first");
    let before: Vec<Target> = table.targets().to_vec();
    let two = [0x16, 0x15, 0x24, 0x02, 0x07, 0x18, 0x15, 0x24, 0x02, 0x08, 0x18, 0x18];
    assert_eq!(table.write(&list(), &two, WriteOp::Replace, &on(F1)), Err(Status::ResourceExhausted));
    assert_eq!(table.targets(), before.as_slice());
    let invalid = [0x16, 0x15, 0x24, 0x03, 0x01, 0x18, 0x18];
    assert_eq!(table.write(&list(), &invalid, WriteOp::Replace, &on(F1)), Err(Status::ConstraintError));
    assert_eq!(table.targets(), before.as_slice());
}

#[test]
fn a_removed_fabric_is_heard_of() {
    let mut table = Table::new(4);
    table.add(Target::unicast(F1, BULB, 1)).expect("add");
    table.add(Target::unicast(F2, BULB, 1)).expect("add");
    table.on_lifecycle(Lifecycle::FabricRemoved(F2));
    assert_eq!(table.targets(), &[Target::unicast(F1, BULB, 1)]);
    assert_eq!(table.per_fabric(), 4);
}
