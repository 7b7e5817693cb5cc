use std::cell::RefCell;

use matter_clusters::clusters::groups::{
    GroupMembership, Groups, Identifying, NeverIdentifying, NoScenes, ScenePurge, ADD_GROUP, ADD_GROUP_IF_IDENTIFYING,
    ADD_GROUP_RESPONSE, GET_GROUP_MEMBERSHIP, GET_GROUP_MEMBERSHIP_RESPONSE, GROUP_NAMES, ID, NAME_SUPPORT, REMOVE_ALL_GROUPS,
    REMOVE_GROUP, REMOVE_GROUP_RESPONSE, VIEW_GROUP, VIEW_GROUP_RESPONSE,
};
use matter_clusters::conformance::Optional;
use matter_clusters::im::{
    ClusterHandler, CommandId, InteractionContext, Lifecycle, Reply, Resolved, ResolvedCommand, Status, StatusIb, WriteOp,
};
use matter_clusters::msg::{FabricIndex, GroupId};
use matter_clusters::platform::Instant;
use matter_clusters::tlv::{Tag, TlvWriter};

struct Blinking;

impl Identifying for Blinking {
    fn is_identifying(&self) -> bool {
        true
    }
}

/// Remembers what it was asked to remove; no group stands for all of a fabric's.
struct Scenes {
    removed: RefCell<Vec<(u8, Option<u16>)>>,
}

impl ScenePurge for &Scenes {
    fn remove_group_scenes(&mut self, fabric: FabricIndex, group: GroupId) {
        self.removed.borrow_mut().push((fabric.0, Some(group.0)));
    }
    fn remove_grouped_scenes(&mut self, fabric: FabricIndex) {
        self.removed.borrow_mut().push((fabric.0, None));
    }
}

fn on(fabric: u8) -> InteractionContext {
    InteractionContext::new(Some(FabricIndex(fabric)), Instant { micros: 0 })
}

fn groupcast(fabric: u8) -> InteractionContext {
    let mut ctx = on(fabric);
    ctx.group = Some(GroupId(9));
    ctx
}

fn send<const N: usize, I: Identifying, S: ScenePurge>(
    c: &mut Groups<N, I, S>,
    command: CommandId,
    fields: Option<&[u8]>,
    ctx: &InteractionContext,
) -> Result<Reply, StatusIb> {
    c.perform(&ResolvedCommand { endpoint: 1, cluster: ID, command }, fields, ctx, Tag::Anonymous)
}

/// A structure of a group and a name of one letter.
fn named(group: u8, letter: u8) -> Vec<u8> {
    vec![0x15, 0x24, 0x00, group, 0x2C, 0x01, 0x01, letter, 0x18]
}

fn just(group: u8) -> Vec<u8> {
    vec![0x15, 0x24, 0x00, group, 0x18]
}

fn body(r: Result<Reply, StatusIb>, command: CommandId) -> Vec<u8> {
    let reply = r.ok().expect("answered");
    assert_eq!(reply.command, Some(command));
    reply.body
}

fn silent(r: Result<Reply, StatusIb>) -> bool {
    matches!(r, Ok(reply) if reply.command.is_none())
}

#[test]
fn a_group_is_added_viewed_and_removed() {
    let mut c = Groups::<4, NeverIdentifying, NoScenes>::new(2, true);
    let added = send(&mut c, ADD_GROUP, Some(&named(7, b'k')), &on(1));
    assert_eq!(body(added, ADD_GROUP_RESPONSE), [0x15, 0x24, 0x00, 0x00, 0x24, 0x01, 0x07, 0x18]);
    assert!(c.is_member(FabricIndex(1), GroupId(7)));
    assert!(c.is_group_member(FabricIndex(1), GroupId(7)));
    assert_eq!(c.memberships()[0].name(), "k");

    let viewed = send(&mut c, VIEW_GROUP, Some(&just(7)), &on(1));
    assert_eq!(
        body(viewed, VIEW_GROUP_RESPONSE),
        [0x15, 0x24, 0x00, 0x00, 0x24, 0x01, 0x07, 0x2C, 0x02, 0x01, b'k', 0x18]
    );

    let removed = send(&mut c, REMOVE_GROUP, Some(&just(7)), &on(1));
    assert_eq!(body(removed, REMOVE_GROUP_RESPONSE), [0x15, 0x24, 0x00, 0x00, 0x24, 0x01, 0x07, 0x18]);
    assert!(!c.is_member(FabricIndex(1), GroupId(7)));
    // NOT_FOUND is 0x8B.
    let again = send(&mut c, REMOVE_GROUP, Some(&just(7)), &on(1));
    assert_eq!(body(again, REMOVE_GROUP_RESPONSE), [0x15, 0x24, 0x00, 0x8B, 0x24, 0x01, 0x07, 0x18]);
    let gone = send(&mut c, VIEW_GROUP, Some(&just(7)), &on(1));
    assert_eq!(
        body(gone, VIEW_GROUP_RESPONSE),
        [0x15, 0x24, 0x00, 0x8B, 0x24, 0x01, 0x07, 0x2C, 0x02, 0x00, 0x18]
    );
}

#[test]
fn the_null_group_is_no_group() {
    let mut c = Groups::<4, NeverIdentifying, NoScenes>::new(2, true);
    assert_eq!(c.add(FabricIndex(1), GroupId(0), "x"), Status::ConstraintError);
    let removed = send(&mut c, REMOVE_GROUP, Some(&just(0)), &on(1));
    assert_eq!(body(removed, REMOVE_GROUP_RESPONSE), [0x15, 0x24, 0x00, 0x87, 0x24, 0x01, 0x00, 0x18]);
    // CONSTRAINT_ERROR is 0x87.
    let viewed = send(&mut c, VIEW_GROUP, Some(&just(0)), &on(1));
    assert_eq!(
        body(viewed, VIEW_GROUP_RESPONSE),
        [0x15, 0x24, 0x00, 0x87, 0x24, 0x01, 0x00, 0x2C, 0x02, 0x00, 0x18]
    );
}

#[test]
fn a_name_is_kept_only_where_names_are() {
    let mut kept = Groups::<4, NeverIdentifying, NoScenes>::new(2, true);
    assert_eq!(kept.add(FabricIndex(1), GroupId(1), "a name of sixteen"), Status::ConstraintError);
    assert_eq!(kept.add(FabricIndex(1), GroupId(1), "kitchen"), Status::Success);
    assert_eq!(kept.add(FabricIndex(1), GroupId(1), "hall"), Status::Success);
    assert_eq!(kept.memberships().len(), 1);
    assert_eq!(kept.memberships()[0].name(), "hall");
    assert_eq!(kept.name_support(), 0x80);
    assert_eq!(kept.feature_map(), GROUP_NAMES);

    let mut ignored = Groups::<4, NeverIdentifying, NoScenes>::new(2, false);
    assert_eq!(ignored.add(FabricIndex(1), GroupId(1), "kitchen"), Status::Success);
    assert_eq!(ignored.memberships()[0].name(), "");
    assert_eq!(ignored.name_support(), 0);
    let read = Resolved { endpoint: 1, cluster: ID, attribute: NAME_SUPPORT };
    assert_eq!(ignored.answer(&read, &on(1), Tag::Context(0)), Ok(vec![0x24, 0x00, 0x00]));
    assert_eq!(kept.answer(&read, &on(1), Tag::Context(0)), Ok(vec![0x24, 0x00, 0x80]));
    let other = Resolved { endpoint: 1, cluster: ID, attribute: 5 };
    assert_eq!(kept.answer(&other, &on(1), Tag::Context(0)), Err(Status::UnsupportedAttribute));
    assert_eq!(kept.write(&read, &[0x04, 0x00], WriteOp::Replace, &on(1)), Err(Status::UnsupportedWrite));
}

#[test]
fn a_fabric_fills_its_own_share_alone() {
    let mut c = Groups::<3, NeverIdentifying, NoScenes>::new(2, false);
    assert_eq!(c.add(FabricIndex(1), GroupId(1), ""), Status::Success);
    assert_eq!(c.add(FabricIndex(1), GroupId(2), ""), Status::Success);
    assert_eq!(c.add(FabricIndex(1), GroupId(3), ""), Status::ResourceExhausted);
    assert_eq!(c.capacity(FabricIndex(1)), 0);
    assert_eq!(c.capacity(FabricIndex(2)), 2);
    assert_eq!(c.add(FabricIndex(2), GroupId(1), ""), Status::Success);
    // The table itself is full now.
    assert_eq!(c.add(FabricIndex(2), GroupId(2), ""), Status::ResourceExhausted);
    assert_eq!(c.len_of_fabric(FabricIndex(2)), 1);
}

#[test]
fn membership_is_told_of_all_or_of_those_asked_for() {
    let mut c = Groups::<4, NeverIdentifying, NoScenes>::new(4, false);
    for group in [1u16, 2, 3] {
        assert_eq!(c.add(FabricIndex(1), GroupId(group), ""), Status::Success);
    }
    assert_eq!(c.add(FabricIndex(2), GroupId(5), ""), Status::Success);
    let all = send(&mut c, GET_GROUP_MEMBERSHIP, Some(&[0x15, 0x36, 0x00, 0x18, 0x18]), &on(1));
    assert_eq!(
        body(all, GET_GROUP_MEMBERSHIP_RESPONSE),
        [0x15, 0x24, 0x00, 0x01, 0x36, 0x01, 0x04, 0x01, 0x04, 0x02, 0x04, 0x03, 0x18, 0x18]
    );
    let some = send(&mut c, GET_GROUP_MEMBERSHIP, Some(&[0x15, 0x36, 0x00, 0x04, 0x05, 0x04, 0x02, 0x18, 0x18]), &on(1));
    assert_eq!(
        body(some, GET_GROUP_MEMBERSHIP_RESPONSE),
        [0x15, 0x24, 0x00, 0x01, 0x36, 0x01, 0x04, 0x02, 0x18, 0x18]
    );
}

#[test]
fn a_groupcast_is_carried_out_and_not_answered() {
    let mut c = Groups::<4, NeverIdentifying, NoScenes>::new(4, false);
    assert!(silent(send(&mut c, ADD_GROUP, Some(&named(7, b'k')), &groupcast(1))));
    assert!(c.is_member(FabricIndex(1), GroupId(7)));
    assert!(silent(send(&mut c, VIEW_GROUP, Some(&just(7)), &groupcast(1))));
    assert!(silent(send(&mut c, GET_GROUP_MEMBERSHIP, Some(&[0x15, 0x36, 0x00, 0x18, 0x18]), &groupcast(1))));
    assert!(silent(send(&mut c, REMOVE_GROUP, Some(&just(7)), &groupcast(1))));
    assert!(!c.is_member(FabricIndex(1), GroupId(7)));
}

#[test]
fn only_an_endpoint_that_identifies_itself_is_added_so() {
    let mut dark = Groups::<4, NeverIdentifying, NoScenes>::new(4, false);
    assert!(silent(send(&mut dark, ADD_GROUP_IF_IDENTIFYING, Some(&named(7, b'k')), &on(1))));
    assert!(dark.memberships().is_empty());

    let mut lit = Groups::<4, Blinking, NoScenes>::with(4, false, Blinking, NoScenes::new());
    assert!(silent(send(&mut lit, ADD_GROUP_IF_IDENTIFYING, Some(&named(7, b'k')), &on(1))));
    assert!(lit.is_member(FabricIndex(1), GroupId(7)));
}

#[test]
fn scenes_go_with_their_groups() {
    let scenes = Scenes { removed: RefCell::new(Vec::new()) };
    let mut c = Groups::<4, NeverIdentifying, &Scenes>::with(4, false, NeverIdentifying, &scenes);
    c.add(FabricIndex(1), GroupId(7), "");
    c.add(FabricIndex(2), GroupId(7), "");
    // Nothing was removed, so nothing goes with it.
    assert!(send(&mut c, REMOVE_GROUP, Some(&just(8)), &on(1)).is_ok());
    assert!(scenes.removed.borrow().is_empty());
    assert!(send(&mut c, REMOVE_GROUP, Some(&just(7)), &on(1)).is_ok());
    assert!(silent(send(&mut c, REMOVE_ALL_GROUPS, None, &on(1))));
    assert_eq!(c.len_of_fabric(FabricIndex(2)), 1);
    c.on_lifecycle(Lifecycle::FabricRemoved(FabricIndex(2)));
    assert!(c.memberships().is_empty());
    assert_eq!(*scenes.removed.borrow(), [(1, Some(7)), (1, None), (2, None)]);
}

#[test]
fn commands_that_say_too_little_are_refused() {
    let mut c = Groups::<4, NeverIdentifying, NoScenes>::new(4, false);
    let status = |r: Result<Reply, StatusIb>| r.err().expect("refused").status;
    let nobody = InteractionContext::new(None, Instant { micros: 0 });
    assert_eq!(status(send(&mut c, ADD_GROUP, Some(&named(1, b'a')), &nobody)), Status::UnsupportedAccess);
    assert_eq!(status(send(&mut c, ADD_GROUP, None, &on(1))), Status::InvalidCommand);
    assert_eq!(status(send(&mut c, ADD_GROUP, Some(&just(1)), &on(1))), Status::InvalidCommand);
    assert_eq!(status(send(&mut c, ADD_GROUP, Some(&[0x15, 0x24]), &on(1))), Status::InvalidAction);
    // A group of three octets is no group.
    assert_eq!(
        status(send(&mut c, VIEW_GROUP, Some(&[0x15, 0x26, 0x00, 0x00, 0x00, 0x01, 0x00, 0x18]), &on(1))),
        Status::ConstraintError
    );
    assert_eq!(status(send(&mut c, 0x77, None, &on(1))), Status::UnsupportedCommand);
}

#[test]
fn a_response_that_does_not_fit_is_a_failure() {
    let mut c = Groups::<4, NeverIdentifying, NoScenes>::new(4, false);
    let mut w = TlvWriter::new(3);
    let resolved = ResolvedCommand { endpoint: 1, cluster: ID, command: ADD_GROUP };
    let r = c.invoke(&resolved, Some(&named(1, b'a')), &on(1), &mut w, Tag::Anonymous);
    assert_eq!(r.unwrap_err().status, Status::Failure);
    let mut wide = TlvWriter::new(64);
    let r = c.invoke(&resolved, Some(&named(2, b'a')), &on(1), &mut wide, Tag::Anonymous);
    assert_eq!(r.ok().expect("answered"), Some(ADD_GROUP_RESPONSE));
    assert_eq!(wide.finish(), [0x15, 0x24, 0x00, 0x00, 0x24, 0x01, 0x02, 0x18]);
}

#[test]
fn the_description_is_what_conformance_asks() {
    let d = Groups::<4, NeverIdentifying, NoScenes>::conforming(GROUP_NAMES, &Optional::none()).ok().expect("conforms");
    assert_eq!(d.descriptor().accepted_commands.len(), 6);
    assert_eq!(d.descriptor().generated_commands, [0, 1, 2, 3]);
    assert!(Groups::<4, NeverIdentifying, NoScenes>::conforming(2, &Optional::none()).is_err());
}
