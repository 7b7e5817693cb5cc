//! The clusters.

pub mod access_control;
pub mod administrator_commissioning;
pub mod basic_information;
pub mod binding;
pub mod bridged_device_basic_information;
pub mod commissioner_control;
pub mod descriptor;
pub mod device_energy_management;
pub mod dispatch;
pub mod electrical_measurement;
pub mod energy_evse;
pub mod ethernet_network_diagnostics;
pub mod general_commissioning;
pub mod general_diagnostics;
pub mod group_key_management;
pub mod groupcast;
pub mod groups;
pub mod icd_management;
pub mod identify;
pub mod joint_fabric_administrator;
pub mod joint_fabric_datastore;
pub mod label;
pub mod level_control;
pub mod sharing;

pub use administrator_commissioning::AdministratorCommissioning;
pub use basic_information::BasicInformation;
pub use descriptor::Descriptor;
pub use dispatch::{endpoint_satisfies, validate_endpoint, At, Cluster, Endpoints};
pub use general_commissioning::GeneralCommissioning;
pub use sharing::{Commissioning, GroupCommunication, IdentifyingGroups, JointCommissioning};
