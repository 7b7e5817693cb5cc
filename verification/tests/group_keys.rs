use matter_clusters::clusters::group_key_management::{
    GroupKeyManagement, GroupTable, Member, GROUP_KEY_MAP, GROUP_TABLE, ID, KEY_SET_READ, KEY_SET_READ_ALL_INDICES,
    KEY_SET_READ_ALL_INDICES_RESPONSE, KEY_SET_READ_RESPONSE, KEY_SET_REMOVE, KEY_SET_WRITE, MAX_GROUPS_PER_FABRIC,
    MAX_GROUP_KEYS_PER_FABRIC,
};
use matter_clusters::conformance::Optional;
use matter_clusters::group::GroupKeys;
use matter_clusters::im::{
    AttributeId, ClusterHandler, CommandId, InteractionContext, Lifecycle, Reply, Resolved, ResolvedCommand, Status, StatusIb,
    WriteOp,
};
use matter_clusters::msg::{FabricIndex, GroupId};
use matter_clusters::platform::Instant;
use matter_clusters::tlv::Tag;

type Cluster<'a> = GroupKeyManagement<'a, (), 4, 6>;

fn cluster() -> Cluster<'static> {
    GroupKeyManagement::new(GroupKeys::new(2, 3), &())
}

fn on(fabric: u8) -> InteractionContext {
    let mut ctx = InteractionContext::new(Some(FabricIndex(fabric)), Instant { micros: 0 });
    ctx.fabric_filtered = true;
    ctx
}

fn at(attribute: AttributeId) -> Resolved {
    Resolved { endpoint: 0, cluster: ID, attribute }
}

fn send(
    c: &mut Cluster<'_>,
    command: CommandId,
    fields: Option<&[u8]>,
    ctx: &InteractionContext,
) -> Result<Reply, StatusIb> {
    c.perform(&ResolvedCommand { endpoint: 0, cluster: ID, command }, fields, ctx, Tag::Anonymous)
}

/// An epoch: its key and its start, each of which may be null.
fn epoch(out: &mut Vec<u8>, tag: u8, key: Option<&[u8]>, start: Option<u8>) {
    match key {
        Some(key) => {
            out.extend_from_slice(&[0x30, tag, key.len() as u8]);
            out.extend_from_slice(key);
        }
        None => out.extend_from_slice(&[0x34, tag]),
    }
    match start {
        Some(start) => out.extend_from_slice(&[0x24, tag + 1, start]),
        None => out.extend_from_slice(&[0x34, tag + 1]),
    }
}

fn key_set(id: u8, epochs: [(Option<&[u8]>, Option<u8>); 3]) -> Vec<u8> {
    let mut out = vec![0x15, 0x35, 0x00, 0x24, 0x00, id, 0x24, 0x01, 0x00];
    epoch(&mut out, 2, epochs[0].0, epochs[0].1);
    epoch(&mut out, 4, epochs[1].0, epochs[1].1);
    epoch(&mut out, 6, epochs[2].0, epochs[2].1);
    out.extend_from_slice(&[0x18, 0x18]);
    out
}

fn refusal(r: Result<Reply, StatusIb>) -> Status {
    r.err().expect("refused").status
}

const KEY: [u8; 16] = [7; 16];
const NONE: (Option<&[u8]>, Option<u8>) = (None, None);

#[test]
fn keys_go_in_and_never_come_back_out() {
    let mut c = cluster();
    let two = key_set(5, [(Some(&KEY), Some(1)), (Some(&[8; 16]), Some(9)), NONE]);
    assert!(send(&mut c, KEY_SET_WRITE, Some(&two), &on(1)).is_ok());
    let read = send(&mut c, KEY_SET_READ, Some(&[0x15, 0x24, 0x00, 0x05, 0x18]), &on(1)).ok().expect("read");
    assert_eq!(read.command, Some(KEY_SET_READ_RESPONSE));
    assert_eq!(
        read.body,
        [
            0x15, 0x35, 0x00, 0x24, 0x00, 0x05, 0x24, 0x01, 0x00, 0x34, 0x02, 0x24, 0x03, 0x01, 0x34, 0x04, 0x24, 0x05, 0x09,
            0x34, 0x06, 0x34, 0x07, 0x24, 0xFE, 0x01, 0x18, 0x18,
        ]
    );
    // Another fabric has no such key set.
    assert_eq!(refusal(send(&mut c, KEY_SET_READ, Some(&[0x15, 0x24, 0x00, 0x05, 0x18]), &on(2))), Status::NotFound);
}

#[test]
fn a_key_set_has_to_be_a_rotation() {
    let mut c = cluster();
    let mut write = |epochs: [(Option<&[u8]>, Option<u8>); 3]| {
        refusal(send(&mut c, KEY_SET_WRITE, Some(&key_set(5, epochs)), &on(1)))
    };
    assert_eq!(write([NONE, NONE, NONE]), Status::InvalidCommand);
    assert_eq!(write([(Some(&KEY), None), NONE, NONE]), Status::InvalidCommand);
    assert_eq!(write([(Some(&[7; 15]), Some(1)), NONE, NONE]), Status::ConstraintError);
    assert_eq!(write([(Some(&KEY), Some(0)), NONE, NONE]), Status::InvalidCommand);
    assert_eq!(write([(Some(&KEY), Some(5)), (Some(&KEY), Some(5)), NONE]), Status::InvalidCommand);
    assert_eq!(write([(Some(&KEY), Some(5)), (Some(&KEY), None), NONE]), Status::InvalidCommand);
    assert_eq!(write([(Some(&KEY), Some(5)), NONE, (Some(&KEY), Some(9))]), Status::InvalidCommand);
    assert_eq!(write([(Some(&KEY), Some(5)), (Some(&[1; 17]), Some(6)), NONE]), Status::ConstraintError);
    assert!(c.keys().key_sets().is_empty());
}

#[test]
fn a_write_replaces_the_whole_set() {
    let mut c = cluster();
    assert!(send(&mut c, KEY_SET_WRITE, Some(&key_set(5, [(Some(&KEY), Some(1)), (Some(&KEY), Some(2)), NONE])), &on(1)).is_ok());
    assert!(send(&mut c, KEY_SET_WRITE, Some(&key_set(5, [(Some(&[9; 16]), Some(3)), NONE, NONE])), &on(1)).is_ok());
    assert_eq!(c.keys().key_sets().len(), 1);
    let set = c.keys().key_set(FabricIndex(1), 5).expect("written");
    assert_eq!(set.epoch_keys.len(), 1);
    assert_eq!(set.epoch_keys.as_slice()[0].start_time_us, 3);
    assert_eq!(set.epoch_keys.as_slice()[0].key.as_bytes(), [9; 16]);
}

#[test]
fn a_fabric_has_its_share_of_key_sets() {
    let mut c = cluster();
    let one = |id: u8| key_set(id, [(Some(&KEY), Some(1)), NONE, NONE]);
    assert!(send(&mut c, KEY_SET_WRITE, Some(&one(1)), &on(1)).is_ok());
    assert!(send(&mut c, KEY_SET_WRITE, Some(&one(2)), &on(1)).is_ok());
    assert_eq!(refusal(send(&mut c, KEY_SET_WRITE, Some(&one(3)), &on(1))), Status::ResourceExhausted);
    assert!(send(&mut c, KEY_SET_WRITE, Some(&one(3)), &on(2)).is_ok());
    let all = send(&mut c, KEY_SET_READ_ALL_INDICES, None, &on(1)).ok().expect("read");
    assert_eq!(all.command, Some(KEY_SET_READ_ALL_INDICES_RESPONSE));
    assert_eq!(all.body, [0x15, 0x36, 0x00, 0x04, 0x01, 0x04, 0x02, 0x18, 0x18]);
    assert_eq!(c.answer(&at(MAX_GROUPS_PER_FABRIC), &on(1), Tag::Context(0)), Ok(vec![0x24, 0x00, 3]));
    assert_eq!(c.answer(&at(MAX_GROUP_KEYS_PER_FABRIC), &on(1), Tag::Context(0)), Ok(vec![0x24, 0x00, 2]));
}

#[test]
fn the_identity_key_is_not_removed_by_command() {
    let mut c = cluster();
    assert!(send(&mut c, KEY_SET_WRITE, Some(&key_set(5, [(Some(&KEY), Some(1)), NONE, NONE])), &on(1)).is_ok());
    assert_eq!(refusal(send(&mut c, KEY_SET_REMOVE, Some(&[0x15, 0x24, 0x00, 0x00, 0x18]), &on(1))), Status::InvalidCommand);
    assert_eq!(refusal(send(&mut c, KEY_SET_REMOVE, Some(&[0x15, 0x24, 0x00, 0x06, 0x18]), &on(1))), Status::NotFound);
    assert!(send(&mut c, KEY_SET_REMOVE, Some(&[0x15, 0x24, 0x00, 0x05, 0x18]), &on(1)).is_ok());
    assert!(c.keys().key_sets().is_empty());
}

#[test]
fn the_map_is_written_and_read_back_per_fabric() {
    let mut c = cluster();
    // Group 7 under key set 5; the fabric that the client names is ignored.
    let list = [0x16, 0x15, 0x24, 0x01, 0x07, 0x24, 0x02, 0x05, 0x24, 0xFE, 0x09, 0x18, 0x18];
    assert_eq!(c.write(&at(GROUP_KEY_MAP), &list, WriteOp::Replace, &on(1)), Ok(()));
    let more = [0x15, 0x24, 0x01, 0x08, 0x24, 0x02, 0x05, 0x18];
    assert_eq!(c.write(&at(GROUP_KEY_MAP), &more, WriteOp::Append, &on(2)), Ok(()));
    assert_eq!(
        c.answer(&at(GROUP_KEY_MAP), &on(1), Tag::Context(0)),
        Ok(vec![0x36, 0x00, 0x15, 0x24, 0x01, 0x07, 0x24, 0x02, 0x05, 0x24, 0xFE, 0x01, 0x18, 0x18])
    );
    // What was read is written back.
    let again = [0x16, 0x15, 0x24, 0x01, 0x07, 0x24, 0x02, 0x05, 0x24, 0xFE, 0x01, 0x18, 0x18];
    assert_eq!(c.write(&at(GROUP_KEY_MAP), &again, WriteOp::Replace, &on(1)), Ok(()));
    assert_eq!(c.keys().map().len(), 2);
    assert_eq!(c.write(&at(GROUP_TABLE), &again, WriteOp::Replace, &on(1)), Err(Status::UnsupportedWrite));
    assert_eq!(c.write(&at(GROUP_KEY_MAP), &more, WriteOp::Replace, &on(1)), Err(Status::InvalidAction));
    let nobody = InteractionContext::new(Some(FabricIndex(0)), Instant { micros: 0 });
    assert_eq!(c.write(&at(GROUP_KEY_MAP), &again, WriteOp::Replace, &nobody), Err(Status::UnsupportedAccess));
    c.on_lifecycle(Lifecycle::FabricRemoved(FabricIndex(1)));
    assert_eq!(c.keys().map().len(), 1);
    assert_eq!(c.keys().map()[0].group, GroupId(8));
}

struct Table;

impl GroupTable for Table {
    fn memberships(&self) -> Vec<Member> {
        let member = |fabric: u8, group: u16, endpoint: u16| Member {
            fabric: FabricIndex(fabric),
            group: GroupId(group),
            endpoint,
        };
        vec![member(1, 7, 1), member(2, 9, 1), member(1, 7, 2)]
    }
    fn name(&self, _fabric: FabricIndex, group: GroupId) -> Option<&str> {
        if group == GroupId(7) {
            Some("k")
        } else {
            None
        }
    }
}

#[test]
fn the_group_table_gathers_endpoints_by_group() {
    let c: GroupKeyManagement<'_, Table, 4, 6> = GroupKeyManagement::new(GroupKeys::new(2, 3), &Table);
    assert_eq!(
        c.answer(&at(GROUP_TABLE), &on(1), Tag::Context(0)),
        Ok(vec![
            0x36, 0x00, 0x15, 0x24, 0x01, 0x07, 0x36, 0x02, 0x04, 0x01, 0x04, 0x02, 0x18, 0x2C, 0x03, 0x01, b'k', 0x24, 0xFE,
            0x01, 0x18, 0x18,
        ])
    );
    let empty = cluster();
    assert_eq!(empty.answer(&at(GROUP_TABLE), &on(1), Tag::Context(0)), Ok(vec![0x36, 0x00, 0x18]));
}

#[test]
fn the_keys_are_the_nodes() {
    let mut keys: GroupKeys<4, 6> = GroupKeys::new(2, 3);
    assert!(keys.map_group(FabricIndex(1), GroupId(3), 4).is_ok());
    let mut c = Cluster::new(keys, &());
    assert_eq!(c.keys().map().len(), 1);
    assert_eq!(refusal(send(&mut c, 0x55, None, &on(1))), Status::UnsupportedCommand);
    assert!(Cluster::conforming(0, &Optional::none()).is_ok());
}
