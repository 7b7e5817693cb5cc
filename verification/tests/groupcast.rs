use matter_clusters::clusters::groupcast::{
    all_provisional, Groupcast, CONFIGURE_AUXILIARY_ACL, FABRIC_UNDER_TEST, FEATURE_LISTENER, FEATURE_PER_GROUP_ADDRESS,
    FEATURE_SENDER, ID, JOIN_GROUP, LEAVE_GROUP, LEAVE_GROUP_RESPONSE, MAX_MCAST_ADDR_COUNT, MAX_MEMBERSHIP_COUNT, MEMBERSHIP,
    UPDATE_GROUP_KEY, USED_MCAST_ADDR_COUNT,
};
use matter_clusters::dm::Privilege;
use matter_clusters::group::GroupKeys;
use matter_clusters::im::{
    AttributeId, ClusterHandler, CommandId, InteractionContext, Lifecycle, Reply, Resolved, ResolvedCommand, Status, StatusIb,
};
use matter_clusters::msg::{FabricIndex, GroupId};
use matter_clusters::platform::Instant;
use matter_clusters::tlv::Tag;

type Cluster = Groupcast<4, 3, 4, 6>;

fn cluster(features: u32) -> Cluster {
    Groupcast::new(GroupKeys::new(3, 4), features)
}

fn on(fabric: u8) -> InteractionContext {
    let mut ctx = InteractionContext::new(Some(FabricIndex(fabric)), Instant { micros: 0 });
    ctx.privilege = Some(Privilege::Administer);
    ctx.fabric_filtered = true;
    ctx
}

fn send(c: &mut Cluster, command: CommandId, fields: Option<&[u8]>, ctx: &InteractionContext) -> Result<Reply, StatusIb> {
    c.perform(&ResolvedCommand { endpoint: 0, cluster: ID, command }, fields, ctx, Tag::Anonymous)
}

fn join(group: u8, endpoints: &[u8], key_set: u8, key: Option<u8>, rest: &[u8]) -> Vec<u8> {
    let mut out = vec![0x15, 0x24, 0x00, group, 0x36, 0x01];
    for endpoint in endpoints {
        out.extend_from_slice(&[0x04, *endpoint]);
    }
    out.extend_from_slice(&[0x18, 0x24, 0x02, key_set]);
    if let Some(octet) = key {
        out.extend_from_slice(&[0x30, 0x03, 16]);
        out.extend_from_slice(&[octet; 16]);
    }
    out.extend_from_slice(rest);
    out.push(0x18);
    out
}

fn refusal(r: Result<Reply, StatusIb>) -> Status {
    r.err().expect("refused").status
}

fn read(c: &Cluster, attribute: AttributeId) -> Vec<u8> {
    c.answer(&Resolved { endpoint: 0, cluster: ID, attribute }, &on(1), Tag::Context(0)).ok().expect("read")
}

#[test]
fn a_joined_group_has_its_key_and_its_place_in_the_map() {
    let mut c = cluster(FEATURE_LISTENER);
    assert!(send(&mut c, JOIN_GROUP, Some(&join(7, &[1, 2, 1], 5, Some(9), &[])), &on(1)).is_ok());
    let m = &c.memberships()[0];
    assert_eq!(m.group, GroupId(7));
    assert_eq!(m.endpoints.as_slice(), &[1, 2]);
    assert_eq!(c.keys.map()[0].key_set, 5);
    let set = c.keys.key_set(FabricIndex(1), 5).expect("made");
    assert_eq!(set.epoch_keys.as_slice()[0].start_time_us, 1);
    assert_eq!(set.epoch_keys.as_slice()[0].key.as_bytes(), [9; 16]);
    assert_eq!(
        read(&c, MEMBERSHIP),
        [
            0x36, 0x00, 0x15, 0x24, 0x00, 0x07, 0x36, 0x01, 0x04, 0x01, 0x04, 0x02, 0x18, 0x24, 0x02, 0x05, 0x28, 0x03, 0x24,
            0x04, 0x00, 0x24, 0xFE, 0x01, 0x18, 0x18,
        ]
    );
}

#[test]
fn a_join_that_cannot_be_is_refused() {
    let mut c = cluster(FEATURE_LISTENER);
    let mut try_join = |fields: Vec<u8>| refusal(send(&mut c, JOIN_GROUP, Some(&fields), &on(1)));
    assert_eq!(try_join(join(0, &[1], 5, Some(9), &[])), Status::ConstraintError);
    assert_eq!(try_join(join(7, &[1], 0, Some(9), &[])), Status::ConstraintError);
    assert_eq!(try_join(join(7, &[0], 5, Some(9), &[])), Status::UnsupportedEndpoint);
    assert_eq!(try_join(join(7, &[], 5, Some(9), &[])), Status::ConstraintError);
    assert_eq!(try_join(join(7, &[1, 2, 3, 4], 5, Some(9), &[])), Status::ResourceExhausted);
    // A policy of its own address needs the feature.
    assert_eq!(try_join(join(7, &[1], 5, Some(9), &[0x24, 0x06, 0x01])), Status::ConstraintError);
    // Without a key, the key set has to be there.
    assert_eq!(try_join(join(7, &[1], 5, None, &[])), Status::NotFound);
    assert!(c.memberships().is_empty());

    let mut sender = cluster(FEATURE_SENDER);
    assert_eq!(refusal(send(&mut sender, JOIN_GROUP, Some(&join(7, &[1], 5, Some(9), &[])), &on(1))), Status::ConstraintError);
    assert!(send(&mut sender, JOIN_GROUP, Some(&join(7, &[], 5, Some(9), &[])), &on(1)).is_ok());
    // The same key set cannot be made twice.
    assert_eq!(
        refusal(send(&mut sender, JOIN_GROUP, Some(&join(8, &[], 5, Some(9), &[])), &on(1))),
        Status::AlreadyExists
    );
}

#[test]
fn only_an_administrator_has_entries_made() {
    let mut c = cluster(FEATURE_LISTENER);
    let mut operator = on(1);
    operator.privilege = Some(Privilege::Manage);
    let fields = join(7, &[1], 5, Some(9), &[0x29, 0x04]);
    assert_eq!(refusal(send(&mut c, JOIN_GROUP, Some(&fields), &operator)), Status::UnsupportedAccess);
    operator.privilege = None;
    assert_eq!(refusal(send(&mut c, JOIN_GROUP, Some(&fields), &operator)), Status::UnsupportedAccess);
    assert!(send(&mut c, JOIN_GROUP, Some(&fields), &on(1)).is_ok());
    assert!(c.memberships()[0].has_auxiliary_acl);
    assert!(send(&mut c, CONFIGURE_AUXILIARY_ACL, Some(&[0x15, 0x24, 0x00, 0x07, 0x28, 0x01, 0x18]), &on(1)).is_ok());
    assert!(!c.memberships()[0].has_auxiliary_acl);
    assert_eq!(
        refusal(send(&mut c, CONFIGURE_AUXILIARY_ACL, Some(&[0x15, 0x24, 0x00, 0x08, 0x28, 0x01, 0x18]), &on(1))),
        Status::NotFound
    );
}

#[test]
fn no_fabric_takes_more_than_half() {
    let mut c = cluster(FEATURE_SENDER);
    assert_eq!(c.per_fabric_limit(), 2);
    assert!(c.is_sender() && !c.is_listener());
    assert!(send(&mut c, JOIN_GROUP, Some(&join(1, &[], 5, Some(9), &[])), &on(1)).is_ok());
    assert!(send(&mut c, JOIN_GROUP, Some(&join(2, &[], 5, None, &[])), &on(1)).is_ok());
    assert_eq!(refusal(send(&mut c, JOIN_GROUP, Some(&join(3, &[], 5, None, &[])), &on(1))), Status::ResourceExhausted);
    assert!(send(&mut c, JOIN_GROUP, Some(&join(3, &[], 5, Some(9), &[])), &on(2)).is_ok());
    c.on_lifecycle(Lifecycle::FabricRemoved(FabricIndex(1)));
    assert_eq!(c.memberships().len(), 1);
}

#[test]
fn endpoints_are_added_or_replaced() {
    let mut c = cluster(FEATURE_LISTENER);
    assert!(send(&mut c, JOIN_GROUP, Some(&join(7, &[1, 2], 5, Some(9), &[])), &on(1)).is_ok());
    assert!(send(&mut c, JOIN_GROUP, Some(&join(7, &[2, 3], 5, None, &[])), &on(1)).is_ok());
    assert_eq!(c.memberships()[0].endpoints.as_slice(), &[1, 2, 3]);
    // Replacing the endpoints.
    assert!(send(&mut c, JOIN_GROUP, Some(&join(7, &[4], 5, None, &[0x29, 0x05])), &on(1)).is_ok());
    assert_eq!(c.memberships()[0].endpoints.as_slice(), &[4]);
}

#[test]
fn leaving_tells_which_endpoints_left() {
    let mut c = cluster(FEATURE_LISTENER);
    assert!(send(&mut c, JOIN_GROUP, Some(&join(7, &[1, 2], 5, Some(9), &[])), &on(1)).is_ok());
    let some = send(&mut c, LEAVE_GROUP, Some(&[0x15, 0x24, 0x00, 0x07, 0x36, 0x01, 0x04, 0x02, 0x04, 0x09, 0x18, 0x18]), &on(1));
    let some = some.ok().expect("answered");
    assert_eq!(some.command, Some(LEAVE_GROUP_RESPONSE));
    assert_eq!(some.body, [0x15, 0x24, 0x00, 0x07, 0x36, 0x01, 0x04, 0x02, 0x18, 0x18]);
    assert_eq!(c.memberships()[0].endpoints.as_slice(), &[1]);
    // A listener with no endpoint left is in no group, and the key goes too.
    assert!(send(&mut c, LEAVE_GROUP, Some(&[0x15, 0x24, 0x00, 0x07, 0x36, 0x01, 0x04, 0x01, 0x18, 0x18]), &on(1)).is_ok());
    assert!(c.memberships().is_empty());
    assert!(c.keys.key_sets().is_empty());
    assert!(c.keys.map().is_empty());
    assert_eq!(refusal(send(&mut c, LEAVE_GROUP, Some(&[0x15, 0x24, 0x00, 0x07, 0x18]), &on(1))), Status::NotFound);
    assert_eq!(refusal(send(&mut c, LEAVE_GROUP, Some(&[0x15, 0x24, 0x00, 0x00, 0x18]), &on(1))), Status::NotFound);
}

#[test]
fn leaving_all_groups_is_one_command() {
    let mut c = cluster(FEATURE_LISTENER);
    assert!(send(&mut c, JOIN_GROUP, Some(&join(7, &[1], 5, Some(9), &[])), &on(1)).is_ok());
    assert!(send(&mut c, JOIN_GROUP, Some(&join(8, &[2], 5, None, &[])), &on(1)).is_ok());
    assert!(send(&mut c, JOIN_GROUP, Some(&join(8, &[2], 5, Some(1), &[])), &on(2)).is_ok());
    // One of two groups with the same key: the key stays.
    let one = send(&mut c, LEAVE_GROUP, Some(&[0x15, 0x24, 0x00, 0x07, 0x18]), &on(1)).ok().expect("answered");
    assert_eq!(one.body, [0x15, 0x24, 0x00, 0x07, 0x36, 0x01, 0x04, 0x01, 0x18, 0x18]);
    assert!(c.keys.key_set(FabricIndex(1), 5).is_some());
    let all = send(&mut c, LEAVE_GROUP, Some(&[0x15, 0x24, 0x00, 0x00, 0x18]), &on(1)).ok().expect("answered");
    assert_eq!(all.body, [0x15, 0x24, 0x00, 0x00, 0x36, 0x01, 0x18, 0x18]);
    assert!(c.keys.key_set(FabricIndex(1), 5).is_none());
    assert!(c.keys.key_set(FabricIndex(2), 5).is_some());
    assert_eq!(c.memberships().len(), 1);
}

#[test]
fn a_key_is_updated_only_for_a_group_that_was_joined() {
    let mut c = cluster(FEATURE_LISTENER);
    let update = [0x15, 0x24, 0x00, 0x07, 0x24, 0x01, 0x06, 0x18];
    assert_eq!(refusal(send(&mut c, UPDATE_GROUP_KEY, Some(&update), &on(1))), Status::NotFound);
    assert!(send(&mut c, JOIN_GROUP, Some(&join(7, &[1], 5, Some(9), &[])), &on(1)).is_ok());
    assert_eq!(refusal(send(&mut c, UPDATE_GROUP_KEY, Some(&update), &on(1))), Status::NotFound);
    let mut with_key = vec![0x15, 0x24, 0x00, 0x07, 0x24, 0x01, 0x06, 0x30, 0x02, 16];
    with_key.extend_from_slice(&[3; 16]);
    with_key.push(0x18);
    assert!(send(&mut c, UPDATE_GROUP_KEY, Some(&with_key), &on(1)).is_ok());
    assert_eq!(c.memberships()[0].key_set, 6);
    assert_eq!(c.keys.map()[0].key_set, 6);
    assert_eq!(refusal(send(&mut c, UPDATE_GROUP_KEY, None, &on(1))), Status::InvalidCommand);
}

#[test]
fn shared_addresses_count_once() {
    let mut c = cluster(FEATURE_LISTENER | FEATURE_PER_GROUP_ADDRESS).with_max_addresses(3);
    assert_eq!(read(&c, USED_MCAST_ADDR_COUNT), [0x24, 0x00, 0]);
    assert!(send(&mut c, JOIN_GROUP, Some(&join(1, &[1], 5, Some(9), &[])), &on(1)).is_ok());
    assert!(send(&mut c, JOIN_GROUP, Some(&join(1, &[1], 5, Some(9), &[])), &on(2)).is_ok());
    assert_eq!(read(&c, USED_MCAST_ADDR_COUNT), [0x24, 0x00, 1]);
    assert!(send(&mut c, JOIN_GROUP, Some(&join(2, &[1], 5, None, &[0x24, 0x06, 0x01])), &on(1)).is_ok());
    assert_eq!(read(&c, USED_MCAST_ADDR_COUNT), [0x24, 0x00, 2]);
    assert_eq!(read(&c, MAX_MEMBERSHIP_COUNT), [0x24, 0x00, 4]);
    assert_eq!(read(&c, MAX_MCAST_ADDR_COUNT), [0x24, 0x00, 3]);
    assert_eq!(read(&c, FABRIC_UNDER_TEST), [0x24, 0x00, 0]);
    assert!(Cluster::conforming(FEATURE_LISTENER, &all_provisional()).is_ok());
}

#[test]
fn joining_again_keeps_one_entry() {
    let mut c = cluster(FEATURE_LISTENER);
    assert!(send(&mut c, JOIN_GROUP, Some(&join(7, &[1], 5, Some(9), &[])), &on(1)).is_ok());
    assert!(send(&mut c, JOIN_GROUP, Some(&join(7, &[2], 6, Some(8), &[])), &on(1)).is_ok());
    assert_eq!(c.memberships().len(), 1);
    assert_eq!(c.memberships()[0].endpoints.as_slice(), &[1, 2]);
    assert_eq!(c.keys.map().len(), 1);
    assert_eq!(c.keys.map()[0].key_set, 6);
}
