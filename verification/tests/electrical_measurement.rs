use std::cell::Cell;

use matter_clusters::clusters::electrical_measurement::energy::{
    self, CumulativeEnergyResetStruct, ElectricalEnergyMeasurement, EnergyMeasurementStruct, EnergyMeterHooks,
};
use matter_clusters::clusters::electrical_measurement::power::{
    self, ElectricalPowerMeasurement, HarmonicMeasurementStruct, PowerMeterHooks, PowerModeEnum,
};
use matter_clusters::clusters::electrical_measurement::topology::{self, PowerTopology};
use matter_clusters::clusters::electrical_measurement::{
    MeasurementAccuracyRangeStruct, MeasurementAccuracyStruct, MeasurementTypeEnum,
};
use matter_clusters::conformance::Optional;
use matter_clusters::im::{
    AttributeId, ClusterHandler, ClusterId, InteractionContext, Resolved, ResolvedCommand, Status, WriteOp,
};
use matter_clusters::platform::Instant;
use matter_clusters::tlv::Tag;

fn context() -> InteractionContext {
    InteractionContext::new(None, Instant { micros: 0 })
}

fn read<C: ClusterHandler>(c: &C, cluster: ClusterId, attribute: AttributeId) -> Result<Vec<u8>, Status> {
    c.answer(&Resolved { endpoint: 1, cluster, attribute }, &context(), Tag::Context(0))
}

const RANGES: [MeasurementAccuracyRangeStruct; 1] = [MeasurementAccuracyRangeStruct {
    range_min: -5,
    range_max: 100,
    percent_max: Some(200),
    percent_min: None,
    percent_typical: None,
    fixed_max: None,
    fixed_min: None,
    fixed_typical: None,
}];

const ACCURACY: [MeasurementAccuracyStruct<'static>; 1] = [MeasurementAccuracyStruct {
    measurement_type: MeasurementTypeEnum::ActivePower,
    measured: true,
    min_measured_value: -5,
    max_measured_value: 100,
    accuracy_ranges: &RANGES,
}];

/// An accuracy as its five fields, under an opening octet or two.
fn accuracy_bytes(open: &[u8]) -> Vec<u8> {
    let mut out = open.to_vec();
    out.extend_from_slice(&[0x24, 0x00, 5, 0x29, 0x01, 0x20, 0x02, 0xFB, 0x20, 0x03, 100, 0x36, 0x04, 0x15]);
    out.extend_from_slice(&[0x20, 0x00, 0xFB, 0x20, 0x01, 100, 0x24, 0x02, 200, 0x18, 0x18, 0x18]);
    out
}

struct Meter {
    power: Cell<Option<i64>>,
}

impl PowerMeterHooks for Meter {
    fn power_mode(&self) -> PowerModeEnum {
        PowerModeEnum::Ac
    }
    fn accuracy(&self) -> &[MeasurementAccuracyStruct<'_>] {
        &ACCURACY
    }
    fn active_power(&self) -> Option<i64> {
        self.power.get()
    }
    fn harmonic_currents(&self) -> Vec<HarmonicMeasurementStruct> {
        vec![HarmonicMeasurementStruct { order: 1, measurement: Some(9) }, HarmonicMeasurementStruct { order: 3, measurement: None }]
    }
}

struct Silent;

impl PowerMeterHooks for Silent {
    fn accuracy(&self) -> &[MeasurementAccuracyStruct<'_>] {
        &[]
    }
    fn active_power(&self) -> Option<i64> {
        None
    }
}

#[test]
fn a_meter_without_a_reading_says_null_and_not_zero() {
    let meter = Meter { power: Cell::new(None) };
    let c = ElectricalPowerMeasurement::new(&meter);
    assert_eq!(read(&c, power::ID, power::ACTIVE_POWER), Ok(vec![0x34, 0x00]));
    meter.power.set(Some(0));
    assert_eq!(read(&c, power::ID, power::ACTIVE_POWER), Ok(vec![0x20, 0x00, 0]));
    // What is given back to the grid is negative.
    meter.power.set(Some(-400));
    assert_eq!(read(&c, power::ID, power::ACTIVE_POWER), Ok(vec![0x21, 0x00, 0x70, 0xFE]));
    for attribute in [
        power::VOLTAGE, power::ACTIVE_CURRENT, power::REACTIVE_CURRENT, power::APPARENT_CURRENT, power::REACTIVE_POWER,
        power::APPARENT_POWER, power::RMS_VOLTAGE, power::RMS_CURRENT, power::RMS_POWER, power::FREQUENCY, power::POWER_FACTOR,
        power::NEUTRAL_CURRENT,
    ] {
        assert_eq!(read(&c, power::ID, attribute), Ok(vec![0x34, 0x00]));
    }
    assert_eq!(read(&c, power::ID, 0x0013), Err(Status::UnsupportedAttribute));
}

#[test]
fn the_count_of_types_is_the_length_of_the_accuracy_list() {
    let meter = Meter { power: Cell::new(None) };
    let c = ElectricalPowerMeasurement::new(&meter);
    assert_eq!(read(&c, power::ID, power::POWER_MODE), Ok(vec![0x24, 0x00, 2]));
    assert_eq!(read(&c, power::ID, power::NUMBER_OF_MEASUREMENT_TYPES), Ok(vec![0x24, 0x00, 1]));
    let mut listed = vec![0x36, 0x00];
    listed.extend(accuracy_bytes(&[0x15]));
    listed.push(0x18);
    assert_eq!(read(&c, power::ID, power::ACCURACY), Ok(listed));
    let none = ElectricalPowerMeasurement::new(&Silent);
    assert_eq!(read(&none, power::ID, power::NUMBER_OF_MEASUREMENT_TYPES), Ok(vec![0x24, 0x00, 0]));
    assert_eq!(read(&none, power::ID, power::ACCURACY), Ok(vec![0x36, 0x00, 0x18]));
    assert_eq!(read(&none, power::ID, power::POWER_MODE), Ok(vec![0x24, 0x00, 0]));
    assert_eq!(read(&none, power::ID, power::RANGES), Ok(vec![0x36, 0x00, 0x18]));
}

#[test]
fn harmonics_are_listed_with_their_order() {
    let meter = Meter { power: Cell::new(None) };
    let mut c = ElectricalPowerMeasurement::new(&meter);
    assert_eq!(
        read(&c, power::ID, power::HARMONIC_CURRENTS),
        Ok(vec![0x36, 0x00, 0x15, 0x24, 0x00, 1, 0x20, 0x01, 9, 0x18, 0x15, 0x24, 0x00, 3, 0x34, 0x01, 0x18, 0x18])
    );
    assert_eq!(read(&c, power::ID, power::HARMONIC_PHASES), Ok(vec![0x36, 0x00, 0x18]));
    let command = ResolvedCommand { endpoint: 1, cluster: power::ID, command: 0 };
    assert_eq!(c.perform(&command, None, &context(), Tag::Anonymous).err().expect("refused").status, Status::UnsupportedCommand);
    let at = Resolved { endpoint: 1, cluster: power::ID, attribute: power::ACTIVE_POWER };
    assert!(c.write(&at, &[0x00, 1], WriteOp::Replace, &context()).is_err());
}

#[test]
fn a_basic_meter_conforms() {
    let conforming = ElectricalPowerMeasurement::<'_, Silent>::conforming(power::DIRECT_CURRENT, &power::with_basic_readings());
    let described = conforming.ok().expect("conforms");
    let listed: Vec<AttributeId> = described.descriptor().attributes.iter().map(|a| a.id).collect();
    assert!(listed.contains(&power::VOLTAGE));
    assert!(listed.contains(&power::ACTIVE_POWER));
    assert!(!listed.contains(&power::RMS_VOLTAGE));
}

struct Totals;

impl EnergyMeterHooks for Totals {
    fn accuracy(&self) -> MeasurementAccuracyStruct<'_> {
        ACCURACY[0]
    }
    fn cumulative_imported(&self) -> Option<EnergyMeasurementStruct> {
        Some(EnergyMeasurementStruct {
            energy: 7,
            start_timestamp: None,
            end_timestamp: Some(300),
            start_systime: None,
            end_systime: None,
        })
    }
    fn cumulative_reset(&self) -> Option<CumulativeEnergyResetStruct> {
        Some(CumulativeEnergyResetStruct {
            imported_reset_timestamp: Some(1),
            exported_reset_timestamp: None,
            imported_reset_systime: None,
            exported_reset_systime: None,
        })
    }
}

#[test]
fn totals_carry_their_window() {
    let c = ElectricalEnergyMeasurement::new(&Totals);
    assert_eq!(read(&c, energy::ID, energy::ACCURACY), Ok(accuracy_bytes(&[0x35, 0x00])));
    assert_eq!(
        read(&c, energy::ID, energy::CUMULATIVE_ENERGY_IMPORTED),
        Ok(vec![0x35, 0x00, 0x20, 0x00, 7, 0x25, 0x02, 0x2C, 0x01, 0x18])
    );
    assert_eq!(read(&c, energy::ID, energy::CUMULATIVE_ENERGY_EXPORTED), Ok(vec![0x34, 0x00]));
    assert_eq!(read(&c, energy::ID, energy::PERIODIC_ENERGY_IMPORTED), Ok(vec![0x34, 0x00]));
    assert_eq!(read(&c, energy::ID, energy::PERIODIC_ENERGY_EXPORTED), Ok(vec![0x34, 0x00]));
    let reset = read(&c, energy::ID, energy::CUMULATIVE_ENERGY_RESET).ok().expect("read");
    assert_eq!(reset[..5], [0x35, 0x00, 0x24, 0x00, 1]);
    assert_eq!(read(&c, energy::ID, 6), Err(Status::UnsupportedAttribute));
}

#[test]
fn the_active_set_is_within_the_available_one() {
    let mut c = PowerTopology::new(&[1, 2, 300]);
    assert_eq!(c.active(), [1, 2, 300]);
    assert_eq!(c.set_active(&[2, 4]), Err(Status::ConstraintError));
    assert_eq!(c.active(), [1, 2, 300]);
    assert!(c.set_active(&[300]).is_ok());
    assert_eq!(read(&c, topology::ID, topology::ACTIVE_ENDPOINTS), Ok(vec![0x36, 0x00, 0x05, 0x2C, 0x01, 0x18]));
    assert_eq!(
        read(&c, topology::ID, topology::AVAILABLE_ENDPOINTS),
        Ok(vec![0x36, 0x00, 0x04, 1, 0x04, 2, 0x05, 0x2C, 0x01, 0x18])
    );
    assert!(c.set_active(&[]).is_ok());
    assert_eq!(read(&c, topology::ID, topology::ACTIVE_ENDPOINTS), Ok(vec![0x36, 0x00, 0x18]));
    assert_eq!(read(&c, topology::ID, 2), Err(Status::UnsupportedAttribute));
    let none = Optional { attributes: vec![], commands: vec![], events: vec![] };
    let whole = PowerTopology::conforming(topology::NODE_TOPOLOGY, &none).ok().expect("conforms");
    assert!(whole.descriptor().attributes.iter().all(|a| a.id != topology::AVAILABLE_ENDPOINTS));
    let set = PowerTopology::conforming(topology::SET_TOPOLOGY, &none).ok().expect("conforms");
    assert!(set.descriptor().attributes.iter().any(|a| a.id == topology::AVAILABLE_ENDPOINTS));
}
