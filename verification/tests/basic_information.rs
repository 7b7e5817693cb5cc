use matter_clusters::clusters::basic_information::{
    Attributes, BasicInformation, CapabilityMinima, Location, Product, ProductAppearance, ProductFinish, CAPABILITY_MINIMA,
    CONFIGURATION_VERSION, HARDWARE_VERSION_STRING, ID, LOCAL_CONFIG_DISABLED, LOCATION, MAX_PATHS_PER_INVOKE, NODE_LABEL,
    PRODUCT_APPEARANCE, PRODUCT_ID, REACHABLE, SERIAL_NUMBER, SOFTWARE_VERSION, SPECIFICATION_VERSION_ID, UNIQUE_ID, VENDOR_ID,
    VENDOR_NAME,
};
use matter_clusters::im::{AttributeId, ClusterHandler, InteractionContext, Resolved, Status, WriteOp};
use matter_clusters::msg::VendorId;
use matter_clusters::platform::Instant;
use matter_clusters::tlv::Tag;

fn context() -> InteractionContext {
    InteractionContext::new(None, Instant { micros: 0 })
}

fn product<'a>() -> Product<'a> {
    Product::new("Acme", VendorId(0xFFF1), "Light", 0x8000, "unique")
}

fn read(c: &BasicInformation<'_>, attribute: AttributeId) -> Result<Vec<u8>, Status> {
    c.answer(&Resolved { endpoint: 0, cluster: ID, attribute }, &context(), Tag::Context(0))
}

fn write(c: &mut BasicInformation<'_>, attribute: AttributeId, data: &[u8]) -> Result<(), Status> {
    c.write(&Resolved { endpoint: 0, cluster: ID, attribute }, data, WriteOp::Replace, &context())
}

#[test]
fn a_product_is_described() {
    let p = product().with_hardware(3, "h").with_software(0x0102_0304, "s").with_serial_number("n1");
    let c = BasicInformation::new(&p, Location::region_agnostic());
    assert_eq!(read(&c, VENDOR_NAME), Ok(vec![0x2C, 0x00, 0x04, b'A', b'c', b'm', b'e']));
    assert_eq!(read(&c, VENDOR_ID), Ok(vec![0x25, 0x00, 0xF1, 0xFF]));
    assert_eq!(read(&c, PRODUCT_ID), Ok(vec![0x25, 0x00, 0x00, 0x80]));
    assert_eq!(read(&c, LOCATION), Ok(vec![0x2C, 0x00, 0x02, b'X', b'X']));
    assert_eq!(read(&c, HARDWARE_VERSION_STRING), Ok(vec![0x2C, 0x00, 0x01, b'h']));
    assert_eq!(read(&c, SOFTWARE_VERSION), Ok(vec![0x26, 0x00, 4, 3, 2, 1]));
    assert_eq!(read(&c, SERIAL_NUMBER), Ok(vec![0x2C, 0x00, 0x02, b'n', b'1']));
    assert_eq!(read(&c, UNIQUE_ID), Ok(vec![0x2C, 0x00, 0x06, b'u', b'n', b'i', b'q', b'u', b'e']));
    assert_eq!(read(&c, SPECIFICATION_VERSION_ID), Ok(vec![0x26, 0x00, 0x00, 0x00, 0x06, 0x01]));
    assert_eq!(
        read(&c, CAPABILITY_MINIMA),
        Ok(vec![
            0x35, 0x00, 0x24, 0x00, 3, 0x24, 0x01, 3, 0x24, 0x02, 1, 0x24, 0x03, 1, 0x24, 0x04, 9, 0x24, 0x05, 3, 0x18,
        ])
    );
    assert_eq!(read(&c, PRODUCT_APPEARANCE), Err(Status::UnsupportedAttribute));
    assert_eq!(read(&c, REACHABLE), Err(Status::UnsupportedAttribute));
    assert_eq!(read(&c, 0x7777), Err(Status::UnsupportedAttribute));
}

#[test]
fn what_is_listed_is_answered_and_nothing_else() {
    let mut p = product();
    p.appearance = Some(ProductAppearance { finish: ProductFinish::Matte, primary_color: None });
    for local in [false, true] {
        for reachable in [false, true] {
            let mut c = BasicInformation::new(&p, Location::region_agnostic());
            if local {
                c = c.with_local_config_disabled(false);
            }
            if reachable {
                c = c.with_reachable(true);
            }
            assert_eq!(c.serves_local_config_disabled(), local);
            assert_eq!(c.serves_reachable(), reachable);
            let listed: Vec<AttributeId> = Attributes::new(&p, local, reachable).as_slice().iter().map(|a| a.id).collect();
            for attribute in 0..0x40u32 {
                assert_eq!(read(&c, attribute).is_ok(), listed.contains(&attribute), "{}", attribute);
            }
            assert!(listed.windows(2).all(|w| w[0] < w[1]));
        }
    }
    assert_eq!(read(&BasicInformation::new(&p, Location::region_agnostic()), PRODUCT_APPEARANCE), Ok(vec![0x35, 0x00, 0x24, 0x00, 1, 0x34, 0x01, 0x18]));
    let d = Attributes::new(&p, false, false).cluster();
    assert_eq!(d.id, ID);
    assert_eq!(d.revision, 6);
    assert_eq!(d.events.len(), 3);
}

#[test]
fn what_was_written_is_read() {
    let p = product();
    let mut c = BasicInformation::new(&p, Location::region_agnostic());
    assert_eq!(write(&mut c, NODE_LABEL, &[0x2C, 0x02, 0x02, b'h', b'i']), Ok(()));
    assert_eq!(c.node_label(), "hi");
    assert_eq!(read(&c, NODE_LABEL), Ok(vec![0x2C, 0x00, 0x02, b'h', b'i']));
    assert_eq!(write(&mut c, LOCATION, &[0x2C, 0x02, 0x02, b'F', b'R']), Ok(()));
    assert_eq!(c.location.get(), [b'F', b'R']);
    assert_eq!(read(&c, LOCATION), Ok(vec![0x2C, 0x00, 0x02, b'F', b'R']));
    assert_eq!(write(&mut c, LOCATION, &[0x2C, 0x02, 0x03, b'F', b'R', b'A']), Err(Status::ConstraintError));
    // Two octets that are one character.
    assert_eq!(write(&mut c, LOCATION, &[0x2C, 0x02, 0x02, 0xC3, 0xA9]), Err(Status::ConstraintError));
    assert_eq!(write(&mut c, LOCATION, &[0x24, 0x02, 0x03]), Err(Status::InvalidDataType));
    assert_eq!(c.location.get(), [b'F', b'R']);
    assert_eq!(c.set_node_label("a label of more than thirty-two octets"), Err(Status::ConstraintError));
    assert_eq!(c.node_label(), "hi");
    assert_eq!(write(&mut c, VENDOR_ID, &[0x04, 0x01]), Err(Status::UnsupportedWrite));
    assert_eq!(write(&mut c, LOCAL_CONFIG_DISABLED, &[0x09]), Err(Status::UnsupportedAttribute));
    let mut c = c.with_local_config_disabled(false);
    assert_eq!(write(&mut c, LOCAL_CONFIG_DISABLED, &[0x09]), Ok(()));
    assert_eq!(read(&c, LOCAL_CONFIG_DISABLED), Ok(vec![0x29, 0x00]));
    assert_eq!(write(&mut c, LOCAL_CONFIG_DISABLED, &[0x04, 0x01]), Err(Status::InvalidDataType));
}

#[test]
fn reachability_says_whether_it_changed() {
    let p = product();
    let mut c = BasicInformation::new(&p, Location::region_agnostic());
    assert!(!c.set_reachable(true));
    assert_eq!(c.reachable(), None);
    let mut c = c.with_reachable(true);
    assert!(!c.set_reachable(true));
    assert!(c.set_reachable(false));
    assert_eq!(c.reachable(), Some(false));
}

#[test]
fn capacities_are_those_of_the_tables() {
    let m = CapabilityMinima::from_tables(3, 4, 9, 70_000);
    assert_eq!(m.case_sessions_per_fabric, 3);
    assert_eq!(m.subscriptions_per_fabric, 4);
    assert_eq!(m.read_paths, Some(9));
    assert_eq!(m.subscribe_paths, Some(10_000));
    let p = product().with_capability_minima(m).with_max_paths_per_invoke(10);
    let c = BasicInformation::new(&p, Location::new("DE").expect("two letters"));
    assert_eq!(read(&c, MAX_PATHS_PER_INVOKE), Ok(vec![0x24, 0x00, 10]));
    assert_eq!(read(&c, CONFIGURATION_VERSION), Ok(vec![0x24, 0x00, 1]));
    assert_eq!(Location::default().get(), [b'X', b'X']);
    assert!(Location::new("D").is_none());
    assert!(Location::new("DEU").is_none());
    let mut l = Location::region_agnostic();
    assert_eq!(l.set("IT"), Ok(()));
    assert_eq!(l.set("ITA"), Err(Status::ConstraintError));
    assert_eq!(l.get(), [b'I', b'T']);
    let mut c = c;
    c.location = l;
    assert_eq!(read(&c, LOCATION), Ok(vec![0x2C, 0x00, 0x02, b'I', b'T']));
}
