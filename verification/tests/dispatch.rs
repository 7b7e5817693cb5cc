use matter_clusters::clusters::basic_information::Location;
use matter_clusters::clusters::binding;
use matter_clusters::clusters::descriptor;
use matter_clusters::clusters::dispatch::{Compose, Routed};
use matter_clusters::clusters::electrical_measurement::topology::{self, PowerTopology};
use matter_clusters::clusters::general_commissioning::{self as general, GeneralCommissioning, RegulatoryLocation, BREADCRUMB};
use matter_clusters::clusters::icd_management::{self as icd, Feature, GrantRequested, IcdManagement, Timings};
use matter_clusters::clusters::{endpoint_satisfies, validate_endpoint, At, Cluster};
use matter_clusters::commissioning::{BasicCommissioningInfo, Shared};
use matter_clusters::device::{Defect, Definition, Requirement, Side};
use matter_clusters::dm::{ClusterDescriptor, Endpoint};
use matter_clusters::im::{ClusterHandler, InteractionContext, Resolved, ResolvedCommand, Status, WriteOp};
use matter_clusters::platform::Instant;
use matter_clusters::tlv::{Tag, TlvWriter};

type Icd = IcdManagement<'static, 1, 1, 1, GrantRequested>;

fn commissioning() -> GeneralCommissioning {
    let info = BasicCommissioningInfo { expiry_length_seconds: 60, max_cumulative_seconds: 900 };
    GeneralCommissioning::new(Location::region_agnostic(), RegulatoryLocation::Indoor, Shared::new(info))
}

fn sleepy() -> Icd {
    Icd::new(Feature(icd::LONG_IDLE_TIME_SUPPORT), Timings::default())
}

fn context() -> InteractionContext {
    InteractionContext::new(None, Instant { micros: 0 })
}

fn at(endpoint: u16, cluster: u32, attribute: u32) -> Resolved {
    Resolved { endpoint, cluster, attribute }
}

const STAY: [u8; 5] = [0x15, 0x24, 0x00, 9, 0x18];

fn stay(endpoint: u16) -> ResolvedCommand {
    ResolvedCommand { endpoint, cluster: icd::ID, command: icd::STAY_ACTIVE_REQUEST }
}

#[test]
fn a_tuple_picks_the_cluster_by_its_number() {
    assert_eq!((GeneralCommissioning::ID, Icd::ID, PowerTopology::ID), (0x30, 0x46, 0x9C));
    let mut node = (commissioning(), sleepy(), PowerTopology::new(&[4])).compose();
    assert!(node.write(&at(0, general::ID, BREADCRUMB), &[0x24, 0x02, 7], WriteOp::Replace, &context()).is_ok());
    assert_eq!(node.answer(&at(0, general::ID, BREADCRUMB), &context(), Tag::Anonymous), Ok(vec![0x04, 7]));
    assert_eq!(node.answer(&at(0, icd::ID, icd::IDLE_MODE_DURATION), &context(), Tag::Anonymous), Ok(vec![0x04, 1]));
    assert_eq!(node.answer(&at(0, topology::ID, topology::ACTIVE_ENDPOINTS), &context(), Tag::Anonymous), Ok(vec![0x16, 0x04, 4, 0x18]));
    assert_eq!(node.answer(&at(0, topology::ID, 99), &context(), Tag::Anonymous), Err(Status::UnsupportedAttribute));
    let told = node.perform(&stay(0), Some(&STAY), &context(), Tag::Anonymous).ok().expect("told");
    assert_eq!((told.command, told.body), (Some(icd::STAY_ACTIVE_RESPONSE), STAY.to_vec()));
    assert_eq!(node.data_version(&at(0, icd::ID, 0)), None);
}

#[test]
fn a_cluster_that_nobody_serves_is_unsupported() {
    let mut node = (commissioning(), PowerTopology::new(&[4])).compose();
    assert_eq!(node.answer(&at(0, icd::ID, 0), &context(), Tag::Anonymous), Err(Status::UnsupportedCluster));
    assert_eq!(node.write(&at(0, icd::ID, 0), &[0x04, 9], WriteOp::Replace, &context()), Err(Status::UnsupportedCluster));
    assert_eq!(node.perform(&stay(0), Some(&STAY), &context(), Tag::Anonymous).err().expect("refused").status, Status::UnsupportedCluster);
    let mut w = TlvWriter::new(8);
    let refused = node.invoke(&stay(0), Some(&STAY), &context(), &mut w, Tag::Anonymous);
    assert_eq!(refused.err().map(|s| s.status), Some(Status::UnsupportedCluster));
    assert!(w.finish().is_empty());
}

#[test]
fn the_endpoint_comes_before_the_cluster() {
    let mut node = (
        At::new(0, (commissioning(),).compose()),
        At::new(3, (commissioning(), sleepy()).compose()),
    ).endpoints();
    assert!(node.write(&at(3, general::ID, BREADCRUMB), &[0x24, 0x02, 7], WriteOp::Replace, &context()).is_ok());
    assert_eq!(node.answer(&at(0, general::ID, BREADCRUMB), &context(), Tag::Anonymous), Ok(vec![0x04, 0]));
    assert_eq!(node.answer(&at(3, general::ID, BREADCRUMB), &context(), Tag::Anonymous), Ok(vec![0x04, 7]));
    assert_eq!(node.answer(&at(0, icd::ID, 0), &context(), Tag::Anonymous), Err(Status::UnsupportedCluster));
    assert_eq!(node.answer(&at(1, icd::ID, 0), &context(), Tag::Anonymous), Err(Status::UnsupportedEndpoint));
    assert_eq!(node.write(&at(1, icd::ID, 0), &[], WriteOp::Replace, &context()), Err(Status::UnsupportedEndpoint));
    assert_eq!(node.perform(&stay(1), Some(&STAY), &context(), Tag::Anonymous).err().expect("refused").status, Status::UnsupportedEndpoint);
    let mut w = TlvWriter::new(8);
    assert_eq!(node.invoke(&stay(3), Some(&STAY), &context(), &mut w, Tag::Anonymous).ok(), Some(Some(icd::STAY_ACTIVE_RESPONSE)));
    assert_eq!(w.finish(), STAY);
}

#[test]
fn what_does_not_fit_exhausts_the_writer() {
    let mut node = (commissioning(), sleepy()).compose();
    let mut w = TlvWriter::new(3);
    assert!(node.read(&at(0, general::ID, BREADCRUMB), &context(), &mut w, Tag::Anonymous).is_ok());
    assert_eq!(node.read(&at(0, general::ID, BREADCRUMB), &context(), &mut w, Tag::Anonymous), Err(Status::ResourceExhausted));
    assert_eq!(w.finish(), [0x04, 0]);
    let refused = node.invoke(&stay(0), Some(&STAY), &context(), &mut w, Tag::Anonymous);
    assert_eq!(refused.err().map(|s| s.status), Some(Status::Failure));
    let complete = ResolvedCommand { endpoint: 0, cluster: general::ID, command: general::COMMISSIONING_COMPLETE };
    let refused = node.invoke(&complete, None, &context(), &mut w, Tag::Anonymous);
    assert_eq!(refused.err().map(|s| s.status), Some(Status::ResourceExhausted));
    assert_eq!(w.finish(), [0x04, 0]);
}

#[test]
fn an_endpoint_is_held_to_what_it_claims() {
    let clusters: [ClusterDescriptor; 2] = [descriptor::cluster(), binding::cluster()];
    let users = [0x0006u32];
    let endpoint = Endpoint::new(1, &clusters).with_clients(&users);
    let needs = [
        Requirement { cluster: descriptor::ID, side: Side::Server, features: 0 },
        Requirement { cluster: binding::ID, side: Side::Server, features: 0 },
        Requirement { cluster: 0x0006, side: Side::Client, features: 0 },
    ];
    let switch = Definition { device_type: 0x0103, revision: 3, requirements: &needs };
    assert!(validate_endpoint(&endpoint, &switch).is_empty());
    assert!(endpoint_satisfies(&endpoint, &switch));
    let needs = [
        Requirement { cluster: 0x0003, side: Side::Server, features: 0 },
        Requirement { cluster: descriptor::ID, side: Side::Server, features: 3 },
        Requirement { cluster: 0x0008, side: Side::Client, features: 0 },
    ];
    let lamp = Definition { device_type: 0x0100, revision: 3, requirements: &needs };
    assert_eq!(
        validate_endpoint(&endpoint, &lamp),
        [Defect::MissingServer(0x0003), Defect::MissingFeatures(descriptor::ID, 3), Defect::MissingClient(0x0008)]
    );
    assert!(!endpoint_satisfies(&endpoint, &lamp));
}
