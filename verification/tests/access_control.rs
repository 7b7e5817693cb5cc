use matter_clusters::acl::{Acl, AuthMode, Entry};
use matter_clusters::clusters::access_control::{
    cluster, privilege_from_value, privilege_value, AccessControl, ChangeType, ACCESS_CONTROL_ENTRY_CHANGED, ACL,
    ENTRIES_PER_FABRIC, ID, SUBJECTS_PER_ENTRY, TARGETS_PER_ENTRY,
};
use matter_clusters::dm::Privilege;
use matter_clusters::im::{ClusterHandler, InteractionContext, Lifecycle, Resolved, Status, WriteOp};
use matter_clusters::msg::{FabricIndex, NodeId};
use matter_clusters::platform::Instant;
use matter_clusters::tlv::{Tag, TlvWriter};

type TestAcl = Acl<4, 20, 4, 3>;

const FABRICS: usize = 5;

#[test]
fn the_wire_values_are_section_9_10_5_2s_and_not_the_enums_order() {
    assert_eq!(privilege_value(Privilege::View), 1);
    assert_eq!(privilege_value(Privilege::ProxyView), 2);
    assert_eq!(privilege_value(Privilege::Operate), 3);
    assert_eq!(privilege_value(Privilege::Administer), 5);
    for value in 1..=5u64 {
        let privilege = privilege_from_value(value).expect("defined");
        assert_eq!(privilege_value(privilege), value, "round trips");
    }
    assert!(privilege_from_value(0).is_none());
    assert!(privilege_from_value(6).is_none());
}

#[test]
fn the_descriptor_needs_administer_in_both_directions() {
    let descriptor = cluster();
    let acl = descriptor.attribute(ACL).expect("ACL attribute");
    assert_eq!(acl.access.read, Some(Privilege::Administer));
    assert_eq!(acl.access.write, Some(Privilege::Administer));
    assert!(acl.access.is_fabric_scoped());
}

#[test]
fn the_minima_are_reported_from_the_list_that_holds_them() {
    let cluster_impl = AccessControl::<4, 20, 4, 3>::new(TestAcl::new());
    assert_eq!(cluster_impl.acl().len(), 0);
    assert_eq!(TestAcl::per_fabric(), 4);
    assert!(TestAcl::total() >= TestAcl::per_fabric() * FABRICS);
}

fn context(fabric: u8) -> InteractionContext {
    let mut ctx = InteractionContext::new(Some(FabricIndex(fabric)), Instant { micros: 0 });
    ctx.peer_node_id = Some(NodeId(0x99));
    ctx
}

fn at(attribute: u32) -> Resolved {
    Resolved { endpoint: 0, cluster: ID, attribute }
}

/// One entry: privilege, authentication mode, subjects (or none), targets null.
fn entry_bytes(privilege: u8, subject: u8) -> Vec<u8> {
    vec![
        0x15, 0x24, 0x01, privilege, 0x24, 0x02, 0x02, 0x36, 0x03, 0x04, subject, 0x18, 0x34, 0x04, 0x18,
    ]
}

#[test]
fn an_appended_entry_is_read_back() {
    let mut c = AccessControl::<4, 20, 4, 3>::new(TestAcl::new());
    let ctx = context(1);
    assert_eq!(c.write(&at(ACL), &entry_bytes(5, 7), WriteOp::Append, &ctx), Ok(()));
    assert_eq!(c.acl().len(), 1);
    let entry = &c.acl().entries()[0];
    assert_eq!(entry.fabric_index, FabricIndex(1));
    assert_eq!(entry.privilege, Privilege::Administer);
    assert_eq!(entry.auth_mode, AuthMode::Case);
    assert_eq!(entry.subjects.as_slice(), &[NodeId(7)]);
    assert!(entry.targets.is_empty());

    let read = c.answer(&at(ACL), &ctx, Tag::Context(0)).expect("the list");
    assert_eq!(
        read,
        [
            0x36, 0x00, 0x15, 0x24, 0x01, 0x05, 0x24, 0x02, 0x02, 0x36, 0x03, 0x04, 0x07, 0x18, 0x34, 0x04, 0x24, 0xFE, 0x01,
            0x18, 0x18,
        ]
    );
}

#[test]
fn every_write_is_recorded_and_taken_once() {
    let mut c = AccessControl::<4, 20, 4, 3>::new(TestAcl::new());
    let ctx = context(1);
    c.write(&at(ACL), &entry_bytes(5, 7), WriteOp::Append, &ctx).expect("appended");
    let changes = c.take_changes();
    assert_eq!(changes.len(), 1);
    let change = &changes.as_slice()[0];
    assert_eq!(change.change_type, ChangeType::Added);
    assert_eq!(change.fabric_index, FabricIndex(1));
    assert_eq!(change.admin_node_id, Some(NodeId(0x99)));
    assert_eq!(c.take_changes().len(), 0);
    assert_eq!(ACCESS_CONTROL_ENTRY_CHANGED, 0);
}

#[test]
fn the_list_of_one_fabric_is_replaced_alone() {
    let mut c = AccessControl::<4, 20, 4, 3>::new(TestAcl::new());
    c.write(&at(ACL), &entry_bytes(5, 7), WriteOp::Append, &context(1)).expect("one");
    c.write(&at(ACL), &entry_bytes(5, 8), WriteOp::Append, &context(2)).expect("two");
    // An array of one entry in place of what fabric 2 has.
    let mut list = vec![0x16];
    list.extend_from_slice(&entry_bytes(3, 9));
    list.push(0x18);
    assert_eq!(c.write(&at(ACL), &list, WriteOp::Replace, &context(2)), Ok(()));
    let mine: Vec<u8> = c.acl().entries().iter().map(|e| e.fabric_index.0).collect();
    assert_eq!(mine, [1, 2]);
    assert_eq!(c.acl().entries()[1].privilege, Privilege::Operate);
    c.on_lifecycle(Lifecycle::FabricRemoved(FabricIndex(1)));
    assert_eq!(c.acl().len(), 1);
}

#[test]
fn entries_that_could_never_grant_are_refused() {
    let mut c = AccessControl::<4, 20, 4, 3>::new(TestAcl::new());
    let ctx = context(1);
    // There is no ninth privilege.
    assert_eq!(
        c.write(&at(ACL), &[0x15, 0x24, 0x01, 0x09, 0x24, 0x02, 0x02, 0x18], WriteOp::Append, &ctx),
        Err(Status::ConstraintError)
    );
    assert_eq!(c.acl().len(), 0);
    // A write outside any fabric.
    let nobody = InteractionContext::new(None, Instant { micros: 0 });
    assert!(c.write(&at(ACL), &entry_bytes(5, 7), WriteOp::Append, &nobody).is_err());
    // Another attribute cannot be written.
    assert!(c.write(&at(ENTRIES_PER_FABRIC), &[0x04, 0x01], WriteOp::Replace, &ctx).is_err());
}

#[test]
fn a_fabric_has_no_more_entries_than_its_share() {
    let mut c = AccessControl::<4, 20, 4, 3>::new(TestAcl::new());
    let ctx = context(1);
    for subject in 1..=4u8 {
        assert_eq!(c.write(&at(ACL), &entry_bytes(5, subject), WriteOp::Append, &ctx), Ok(()));
    }
    assert_eq!(
        c.write(&at(ACL), &entry_bytes(5, 5), WriteOp::Append, &ctx),
        Err(Status::ResourceExhausted)
    );
    assert_eq!(c.write(&at(ACL), &entry_bytes(5, 5), WriteOp::Append, &context(2)), Ok(()));
}

#[test]
fn the_sizes_are_read_as_numbers() {
    let c = AccessControl::<4, 20, 4, 3>::new(TestAcl::new());
    let ctx = context(1);
    assert_eq!(c.answer(&at(SUBJECTS_PER_ENTRY), &ctx, Tag::Context(0)), Ok(vec![0x24, 0x00, 4]));
    assert_eq!(c.answer(&at(TARGETS_PER_ENTRY), &ctx, Tag::Context(0)), Ok(vec![0x24, 0x00, 3]));
    assert_eq!(c.answer(&at(ENTRIES_PER_FABRIC), &ctx, Tag::Context(0)), Ok(vec![0x24, 0x00, 4]));
    assert_eq!(c.answer(&at(0x1234), &ctx, Tag::Context(0)), Err(Status::UnsupportedAttribute));
}

#[test]
fn the_first_administrator_of_a_fabric_is_recorded() {
    let mut c = AccessControl::<4, 20, 4, 3>::new(TestAcl::new());
    let ctx = InteractionContext::new(Some(FabricIndex(3)), Instant { micros: 0 });
    assert!(c.add_admin_for_fabric(FabricIndex(3), NodeId(0x1_0001), &ctx).is_ok());
    assert_eq!(c.acl().entries()[0].privilege, Privilege::Administer);
    assert_eq!(c.acl().entries()[0].subjects.as_slice(), &[NodeId(0x1_0001)]);
    let changes = c.take_changes();
    let mut w = TlvWriter::new(64);
    assert!(changes.as_slice()[0].encode(&mut w, Tag::Anonymous).is_ok());
    // Over a session that no node authenticated, the change names a passcode.
    assert_eq!(
        w.finish(),
        [
            0x15, 0x34, 0x01, 0x24, 0x02, 0, 0x24, 0x03, 1, 0x35, 0x04, 0x24, 0x01, 5, 0x24, 0x02, 2, 0x36, 0x03, 0x06, 0x01,
            0x00, 0x01, 0x00, 0x18, 0x34, 0x04, 0x24, 0xFE, 3, 0x18, 0x24, 0xFE, 3, 0x18,
        ]
    );
    let copy: Entry<4, 3> = c.acl().entries()[0].copy();
    assert_eq!(copy.fabric_index, FabricIndex(3));
}

/// A list of entries.
fn list_bytes(entries: &[Vec<u8>]) -> Vec<u8> {
    let mut list = vec![0x16];
    for entry in entries {
        list.extend_from_slice(entry);
    }
    list.push(0x18);
    list
}

#[test]
fn a_replacement_is_recorded_position_by_position() {
    let mut c = AccessControl::<4, 20, 4, 3>::new(TestAcl::new());
    let ctx = context(1);
    c.write(&at(ACL), &entry_bytes(5, 7), WriteOp::Append, &ctx).expect("appended");
    let _ = c.take_changes();
    let both = list_bytes(&[entry_bytes(5, 7), entry_bytes(3, 8)]);
    assert_eq!(c.write(&at(ACL), &both, WriteOp::Replace, &ctx), Ok(()));
    let kinds: Vec<ChangeType> = c.take_changes().as_slice().iter().map(|change| change.change_type).collect();
    assert_eq!(kinds, [ChangeType::Changed, ChangeType::Added]);
    assert_eq!(c.write(&at(ACL), &list_bytes(&[]), WriteOp::Replace, &ctx), Ok(()));
    let kinds: Vec<ChangeType> = c.take_changes().as_slice().iter().map(|change| change.change_type).collect();
    assert_eq!(kinds, [ChangeType::Removed, ChangeType::Removed]);
    assert_eq!(c.acl().len(), 0);
}

#[test]
fn a_replacement_that_fails_leaves_its_beginning() {
    let mut c = AccessControl::<4, 20, 4, 3>::new(TestAcl::new());
    let ctx = context(1);
    c.write(&at(ACL), &entry_bytes(5, 7), WriteOp::Append, &ctx).expect("appended");
    let _ = c.take_changes();
    // A passcode grants nothing lasting, so the second entry may not stand in a list.
    let mut passcode = entry_bytes(5, 9);
    passcode[6] = 1;
    let list = list_bytes(&[entry_bytes(3, 8), passcode, entry_bytes(4, 10)]);
    assert_eq!(c.write(&at(ACL), &list, WriteOp::Replace, &ctx), Err(Status::ConstraintError));
    assert_eq!(c.acl().len(), 1);
    assert_eq!(c.acl().entries()[0].subjects.as_slice(), &[NodeId(8)]);
    assert_eq!(c.take_changes().len(), 0);
    // A list that cannot be read changes nothing.
    let torn = [0x16, 0x15, 0x24, 0x01, 0x05];
    assert_eq!(c.write(&at(ACL), &torn, WriteOp::Replace, &ctx), Err(Status::InvalidAction));
    assert_eq!(c.acl().entries()[0].subjects.as_slice(), &[NodeId(8)]);
}

#[test]
fn a_list_is_written_entry_by_entry() {
    let mut c = AccessControl::<4, 20, 4, 3>::new(TestAcl::new());
    let ctx = context(1);
    c.write(&at(ACL), &entry_bytes(5, 1), WriteOp::Append, &ctx).expect("what is there before");
    assert_eq!(c.write(&at(ACL), &list_bytes(&[]), WriteOp::Replace, &ctx), Ok(()));
    for subject in [7, 8, 9, 10] {
        assert_eq!(c.write(&at(ACL), &entry_bytes(3, subject), WriteOp::Append, &ctx), Ok(()));
    }
    let subjects: Vec<u64> = c.acl().entries().iter().map(|e| e.subjects.as_slice()[0].0).collect();
    assert_eq!(subjects, [7, 8, 9, 10]);
}
