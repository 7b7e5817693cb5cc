use std::cell::Cell;

use matter_clusters::clusters::ethernet_network_diagnostics::{
    all_optional, conforming, EthernetDriver, EthernetNetworkDiagnostics, PHYRateEnum, Reading, Unknown, CARRIER_DETECT,
    COLLISION_COUNT, ERROR_COUNTS, FULL_DUPLEX, ID, OVERRUN_COUNT, PACKET_COUNTS, PACKET_RX_COUNT, PACKET_TX_COUNT, PHY_RATE,
    RESET_COUNTS, TIME_SINCE_RESET, TX_ERR_COUNT,
};
use matter_clusters::conformance::Optional;
use matter_clusters::im::{AttributeId, ClusterHandler, InteractionContext, Resolved, ResolvedCommand, Status};
use matter_clusters::platform::Instant;
use matter_clusters::tlv::{Tag, TlvWriter};

struct Nic;

impl EthernetDriver for Nic {
    fn phy_rate(&self) -> Reading<PHYRateEnum> {
        Reading::Value(PHYRateEnum::Rate1G)
    }
    fn full_duplex(&self) -> Reading<bool> {
        Reading::Value(true)
    }
    fn carrier_detect(&self) -> Reading<bool> {
        Reading::NotOperational
    }
    fn packet_rx_count(&self) -> u64 {
        11
    }
    fn packet_tx_count(&self) -> u64 {
        22
    }
    fn tx_err_count(&self) -> u64 {
        33
    }
    fn collision_count(&self) -> u64 {
        44
    }
    fn overrun_count(&self) -> u64 {
        55
    }
    fn time_since_reset(&self) -> Option<u64> {
        Some(7)
    }
}

fn context() -> InteractionContext {
    InteractionContext::new(None, Instant { micros: 0 })
}

fn read<D: EthernetDriver>(
    cluster: &EthernetNetworkDiagnostics<'_, D>,
    attribute: AttributeId,
) -> Result<Vec<u8>, Status> {
    let resolved = Resolved { endpoint: 0, cluster: ID, attribute };
    let mut w = TlvWriter::new(64);
    cluster.read(&resolved, &context(), &mut w, Tag::Context(0))?;
    Ok(w.finish().to_vec())
}

fn advertises(features: u32, attribute: AttributeId) -> bool {
    conforming(features, &all_optional())
        .ok()
        .expect("descriptor")
        .descriptor()
        .attributes
        .iter()
        .any(|a| a.id == attribute)
}

#[test]
fn an_unclaimed_counter_is_not_advertised_and_not_answered() {
    assert!(!advertises(0, PACKET_RX_COUNT));
    assert!(!advertises(0, TX_ERR_COUNT));
    assert!(advertises(PACKET_COUNTS, PACKET_RX_COUNT));
    assert!(
        !advertises(PACKET_COUNTS, TX_ERR_COUNT),
        "PKTCNT does not imply ERRCNT"
    );
    assert!(advertises(ERROR_COUNTS, COLLISION_COUNT));
    assert!(
        !advertises(ERROR_COUNTS, PACKET_TX_COUNT),
        "and ERRCNT does not imply PKTCNT"
    );

    let none = EthernetNetworkDiagnostics::new(&Nic, 0);
    assert_eq!(
        read(&none, PACKET_RX_COUNT),
        Err(Status::UnsupportedAttribute)
    );
    assert_eq!(read(&none, TX_ERR_COUNT), Err(Status::UnsupportedAttribute));

    let packets = EthernetNetworkDiagnostics::new(&Nic, PACKET_COUNTS);
    assert!(read(&packets, PACKET_RX_COUNT).is_ok());
    assert_eq!(
        read(&packets, TX_ERR_COUNT),
        Err(Status::UnsupportedAttribute)
    );
}

#[test]
fn null_and_unsupported_are_different_answers() {
    let nic = EthernetNetworkDiagnostics::new(&Nic, 0);
    let carrier = read(&nic, CARRIER_DETECT).expect("carrier detect is reported");
    assert_eq!(carrier, [0x34, 0x00], "null, not absent");

    let blank = EthernetNetworkDiagnostics::new(&Unknown, 0);
    assert_eq!(
        read(&blank, CARRIER_DETECT),
        Err(Status::UnsupportedAttribute),
        "a device that cannot measure it says so"
    );
}

#[test]
fn values_round_trip_through_the_reader() {
    let nic = EthernetNetworkDiagnostics::new(&Nic, PACKET_COUNTS | ERROR_COUNTS);
    assert_eq!(read(&nic, PHY_RATE).expect("phy"), [0x24, 0x00, 0x02]);
    assert_eq!(read(&nic, FULL_DUPLEX).expect("duplex"), [0x29, 0x00]);
    assert_eq!(read(&nic, PACKET_RX_COUNT).expect("rx"), [0x24, 0x00, 11]);
    assert_eq!(
        read(&nic, OVERRUN_COUNT).expect("overrun"),
        [0x24, 0x00, 55]
    );
    assert_eq!(
        read(&nic, TIME_SINCE_RESET).expect("since"),
        [0x24, 0x00, 7]
    );
}

#[test]
fn reset_counts_needs_a_counter_to_reset() {
    let descriptor = conforming(PACKET_COUNTS, &Optional::none()).ok().expect("descriptor");
    let command = descriptor
        .descriptor()
        .accepted_commands
        .iter()
        .find(|c| c.id == RESET_COUNTS)
        .expect("ResetCounts is present when PKTCNT is claimed")
        .id;
    let resolved = ResolvedCommand { endpoint: 0, cluster: ID, command };
    let mut w = TlvWriter::new(32);

    let mut none = EthernetNetworkDiagnostics::new(&Nic, 0);
    assert_eq!(
        none.invoke(&resolved, None, &context(), &mut w, Tag::Anonymous)
            .unwrap_err()
            .status,
        Status::UnsupportedCommand,
        "a device with no counters has no ResetCounts"
    );

    let mut packets = EthernetNetworkDiagnostics::new(&Nic, PACKET_COUNTS);
    assert!(packets.invoke(&resolved, None, &context(), &mut w, Tag::Anonymous).is_ok());
}

#[test]
fn an_undefined_feature_is_refused() {
    assert!(conforming(1 << 5, &Optional::none()).is_err());
}

#[test]
fn only_what_is_never_measured_is_unsupported() {
    assert!(Reading::Value(3u8).is_supported());
    assert!(Reading::<u8>::NotOperational.is_supported());
    assert!(!Reading::<u8>::Unsupported.is_supported());
}

struct Counting {
    resets: Cell<u32>,
}

impl EthernetDriver for Counting {
    fn reset_counts(&self) {
        self.resets.set(self.resets.get() + 1);
    }
}

#[test]
fn counters_are_reset_once_for_each_command() {
    let resolved = ResolvedCommand { endpoint: 0, cluster: ID, command: RESET_COUNTS };
    let other = ResolvedCommand { endpoint: 0, cluster: ID, command: RESET_COUNTS + 1 };
    let nic = Counting { resets: Cell::new(0) };
    let mut none = EthernetNetworkDiagnostics::new(&nic, 0);
    assert!(none.perform(&resolved, None, &context(), Tag::Anonymous).is_err());
    assert_eq!(nic.resets.get(), 0);
    let mut errors = EthernetNetworkDiagnostics::new(&nic, ERROR_COUNTS);
    assert!(errors.perform(&other, None, &context(), Tag::Anonymous).is_err());
    assert_eq!(nic.resets.get(), 0);
    assert!(errors.perform(&resolved, None, &context(), Tag::Anonymous).is_ok());
    assert_eq!(nic.resets.get(), 1);
    assert!(errors.perform(&resolved, None, &context(), Tag::Anonymous).is_ok());
    assert_eq!(nic.resets.get(), 2);
}
