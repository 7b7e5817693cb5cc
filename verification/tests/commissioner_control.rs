use std::cell::RefCell;

use matter_clusters::clusters::commissioner_control::{
    CommissionerControl, CommissionerControlHooks, Decision, Request, SupportedDeviceCategoryBitmap, Window, COMMISSION_NODE, ID,
    REQUEST_COMMISSIONING_APPROVAL, REVERSE_OPEN_COMMISSIONING_WINDOW, SUPPORTED_DEVICE_CATEGORIES,
};
use matter_clusters::conformance::Optional;
use matter_clusters::im::{
    ClusterHandler, CommandId, InteractionContext, Reply, Resolved, ResolvedCommand, Status, StatusIb,
};
use matter_clusters::msg::{FabricIndex, NodeId, VendorId};
use matter_clusters::platform::Instant;
use matter_clusters::tlv::Tag;

struct Product {
    asked: RefCell<Vec<u64>>,
    verifier: Vec<u8>,
    refuses: bool,
}

impl Product {
    fn new(length: usize, refuses: bool) -> Self {
        Product { asked: RefCell::new(Vec::new()), verifier: vec![3; length], refuses }
    }
}

impl CommissionerControlHooks for &Product {
    fn requested(&mut self, request: &Request) {
        self.asked.borrow_mut().push(request.request_id);
    }
    fn window(&self, _request: &Request) -> Option<Window<'_>> {
        if self.refuses {
            return None;
        }
        Some(Window {
            commissioning_timeout: 300,
            pake_passcode_verifier: &self.verifier,
            discriminator: 0xABC,
            iterations: 1000,
            salt: &[1; 16],
        })
    }
}

fn session(fabric: u8, node: u64) -> InteractionContext {
    let mut ctx = InteractionContext::new(Some(FabricIndex(fabric)), Instant { micros: 0 });
    ctx.peer_node_id = Some(NodeId(node));
    ctx
}

fn send<const N: usize>(
    c: &mut CommissionerControl<&Product, N>,
    command: CommandId,
    fields: Option<&[u8]>,
    ctx: &InteractionContext,
) -> Result<Reply, StatusIb> {
    c.perform(&ResolvedCommand { endpoint: 0, cluster: ID, command }, fields, ctx, Tag::Anonymous)
}

/// A request for vendor 0xFFF1 and product 0x8000.
fn approval(id: u8) -> Vec<u8> {
    vec![0x15, 0x24, 0x00, id, 0x25, 0x01, 0xF1, 0xFF, 0x25, 0x02, 0x00, 0x80, 0x18]
}

fn commission(id: u8) -> Vec<u8> {
    vec![0x15, 0x24, 0x00, id, 0x24, 0x01, 0x1E, 0x18]
}

fn refusal(r: Result<Reply, StatusIb>) -> Status {
    r.err().expect("refused").status
}

#[test]
fn a_request_is_a_question_and_the_answer_an_event() {
    let product = Product::new(97, false);
    let mut c: CommissionerControl<&Product, 2> =
        CommissionerControl::new(&product, SupportedDeviceCategoryBitmap::fabric_synchronization());
    let asked = send(&mut c, REQUEST_COMMISSIONING_APPROVAL, Some(&approval(7)), &session(1, 0x10)).ok().expect("success");
    assert_eq!(asked.command, None);
    assert_eq!(*product.asked.borrow(), [7]);
    assert_eq!(
        c.pending(),
        &[Request {
            request_id: 7,
            client_node_id: NodeId(0x10),
            fabric: FabricIndex(1),
            vendor_id: VendorId(0xFFF1),
            product_id: 0x8000,
            approved: None,
        }]
    );
    // Nobody has approved it yet.
    assert_eq!(refusal(send(&mut c, COMMISSION_NODE, Some(&commission(7)), &session(1, 0x10))), Status::Failure);
    assert!(!c.decide(8, NodeId(0x10), Decision::Approved));
    assert!(!c.decide(7, NodeId(0x11), Decision::Approved));
    assert!(c.decide(7, NodeId(0x10), Decision::Approved));
    let events = c.take_events();
    assert_eq!(events.len(), 1);
    assert_eq!(events[0].request_id, 7);
    assert_eq!(events[0].decision.status(), Status::Success);
    assert!(c.take_events().is_empty());
}

#[test]
fn an_approved_request_opens_the_clients_window() {
    let product = Product::new(97, false);
    let mut c: CommissionerControl<&Product, 2> =
        CommissionerControl::new(&product, SupportedDeviceCategoryBitmap::fabric_synchronization());
    assert!(send(&mut c, REQUEST_COMMISSIONING_APPROVAL, Some(&approval(7)), &session(1, 0x10)).is_ok());
    assert!(c.decide(7, NodeId(0x10), Decision::Approved));
    // Another node and another fabric do not match.
    assert_eq!(refusal(send(&mut c, COMMISSION_NODE, Some(&commission(7)), &session(1, 0x11))), Status::Failure);
    assert_eq!(refusal(send(&mut c, COMMISSION_NODE, Some(&commission(7)), &session(2, 0x10))), Status::Failure);
    assert!(!c.reverse_pending());
    let reply = send(&mut c, COMMISSION_NODE, Some(&commission(7)), &session(1, 0x10)).ok().expect("opened");
    assert_eq!(reply.command, Some(REVERSE_OPEN_COMMISSIONING_WINDOW));
    let mut expected = vec![0x15, 0x25, 0x00, 0x2C, 0x01, 0x30, 0x01, 97];
    expected.extend_from_slice(&[3; 97]);
    expected.extend_from_slice(&[0x25, 0x02, 0xBC, 0x0A, 0x25, 0x03, 0xE8, 0x03, 0x30, 0x04, 16]);
    expected.extend_from_slice(&[1; 16]);
    expected.push(0x18);
    assert_eq!(reply.body, expected);
    assert!(c.reverse_pending());
    assert!(!c.reverse_pending());
    c.forget(7, NodeId(0x10));
    assert!(c.pending().is_empty());
}

#[test]
fn a_window_that_could_not_open_is_a_failure() {
    for product in [Product::new(96, false), Product::new(97, true)] {
        let mut c: CommissionerControl<&Product, 2> =
            CommissionerControl::new(&product, SupportedDeviceCategoryBitmap::fabric_synchronization());
        assert!(send(&mut c, REQUEST_COMMISSIONING_APPROVAL, Some(&approval(7)), &session(1, 0x10)).is_ok());
        assert!(c.decide(7, NodeId(0x10), Decision::Approved));
        assert_eq!(refusal(send(&mut c, COMMISSION_NODE, Some(&commission(7)), &session(1, 0x10))), Status::Failure);
        assert!(!c.reverse_pending());
    }
}

#[test]
fn requests_are_told_apart_and_bounded() {
    let product = Product::new(97, false);
    let mut c: CommissionerControl<&Product, 2> =
        CommissionerControl::new(&product, SupportedDeviceCategoryBitmap::fabric_synchronization());
    assert!(send(&mut c, REQUEST_COMMISSIONING_APPROVAL, Some(&approval(7)), &session(1, 0x10)).is_ok());
    assert_eq!(refusal(send(&mut c, REQUEST_COMMISSIONING_APPROVAL, Some(&approval(7)), &session(1, 0x10))), Status::Failure);
    assert!(send(&mut c, REQUEST_COMMISSIONING_APPROVAL, Some(&approval(7)), &session(1, 0x11)).is_ok());
    assert_eq!(
        refusal(send(&mut c, REQUEST_COMMISSIONING_APPROVAL, Some(&approval(8)), &session(1, 0x10))),
        Status::ResourceExhausted
    );
    assert_eq!(*product.asked.borrow(), [7, 7]);
    // The oldest event makes room.
    assert!(c.decide(7, NodeId(0x10), Decision::TimedOut));
    assert!(c.decide(7, NodeId(0x11), Decision::Refused));
    assert!(c.decide(7, NodeId(0x11), Decision::Approved));
    let seen: Vec<Decision> = c.take_events().iter().map(|e| e.decision).collect();
    assert_eq!(seen, [Decision::Refused, Decision::Approved]);
    assert_eq!(Decision::TimedOut.status(), Status::Timeout);
    assert_eq!(Decision::Refused.status(), Status::Failure);
}

#[test]
fn a_passcode_session_asks_for_nothing() {
    let product = Product::new(97, false);
    let mut c: CommissionerControl<&Product, 2> =
        CommissionerControl::new(&product, SupportedDeviceCategoryBitmap::fabric_synchronization());
    let passcode = InteractionContext::new(None, Instant { micros: 0 });
    assert_eq!(
        refusal(send(&mut c, REQUEST_COMMISSIONING_APPROVAL, Some(&approval(7)), &passcode)),
        Status::UnsupportedAccess
    );
    assert_eq!(refusal(send(&mut c, REQUEST_COMMISSIONING_APPROVAL, None, &session(1, 1))), Status::InvalidCommand);
    assert_eq!(refusal(send(&mut c, 0x44, None, &session(1, 1))), Status::UnsupportedCommand);
    // A label of 65 octets.
    let mut long = vec![0x15, 0x24, 0x00, 1, 0x24, 0x01, 1, 0x24, 0x02, 1, 0x2C, 0x03, 65];
    long.extend_from_slice(&[b'x'; 65]);
    long.push(0x18);
    assert_eq!(
        refusal(send(&mut c, REQUEST_COMMISSIONING_APPROVAL, Some(&long), &session(1, 1))),
        Status::ConstraintError
    );
    let r = Resolved { endpoint: 0, cluster: ID, attribute: SUPPORTED_DEVICE_CATEGORIES };
    assert_eq!(c.answer(&r, &passcode, Tag::Context(0)), Ok(vec![0x24, 0x00, 0x01]));
    assert!(CommissionerControl::<&Product, 2>::conforming(0, &Optional::none()).is_ok());
}
