use matter_clusters::clusters::label::{
    fixed_cluster, user_cluster, FixedLabel, Label, OwnedLabel, UserLabel, FIXED_LABEL_ID, LABEL_LIST, USER_LABEL_ID,
};
use matter_clusters::dm::{AttributeQualities, Privilege};
use matter_clusters::im::{ClusterHandler, InteractionContext, Resolved, Status, WriteOp};
use matter_clusters::msg::FabricIndex;
use matter_clusters::platform::Instant;
use matter_clusters::tlv::Tag;

#[test]
fn a_label_longer_than_sixteen_is_refused_when_the_model_is_built() {
    assert!(Label::new("room", "kitchen").is_some());
    assert!(Label::new("room", "seventeen chars!!").is_none());
    assert!(Label::new("a-seventeen-char!", "x").is_none());
    assert!(Label::new("sixteen-chars-ok", "sixteen-chars-ok").is_some());
}

#[test]
fn the_two_clusters_differ_only_in_whether_the_list_can_be_written() {
    let fixed = fixed_cluster();
    let user = user_cluster();
    assert_eq!(fixed.id, 0x0040);
    assert_eq!(user.id, 0x0041);

    let fixed_list = fixed.attribute(LABEL_LIST).expect("LabelList");
    assert_eq!(fixed_list.access.read, Some(Privilege::View));
    assert_eq!(fixed_list.access.write, None, "`RV`");

    let user_list = user.attribute(LABEL_LIST).expect("LabelList");
    assert_eq!(user_list.access.read, Some(Privilege::View));
    assert_eq!(
        user_list.access.write,
        Some(Privilege::Manage),
        "`RW VM`: renaming is configuration, not use"
    );
    assert!(
        fixed_list
            .qualities
            .contains(AttributeQualities::non_volatile())
    );
    assert!(
        user_list
            .qualities
            .contains(AttributeQualities::non_volatile())
    );
}

#[test]
fn a_user_label_list_is_bounded_by_its_capacity() {
    let mut cluster = UserLabel::<2>::new();
    cluster
        .restore(&[
            OwnedLabel::new("room", "kitchen").ok().expect("fits"),
            OwnedLabel::new("floor", "1").ok().expect("fits"),
        ])
        .expect("two fit");
    assert_eq!(
        cluster
            .restore(&[
                OwnedLabel::new("a", "1").ok().expect("fits"),
                OwnedLabel::new("b", "2").ok().expect("fits"),
                OwnedLabel::new("c", "3").ok().expect("fits"),
            ])
            .unwrap_err(),
        Status::ResourceExhausted,
        "a full list has no other honest answer"
    );
}

#[test]
fn an_over_long_label_is_a_constraint_error_not_a_truncation() {
    assert_eq!(
        OwnedLabel::new("this-label-is-far-too-long", "x").err().expect("refused"),
        Status::ConstraintError
    );
}

fn context() -> InteractionContext {
    InteractionContext::new(Some(FabricIndex(1)), Instant { micros: 0 })
}

#[test]
fn a_fixed_list_is_read_and_never_written() {
    let labels = [Label::new("a", "b").expect("fits")];
    let mut c = FixedLabel::new(&labels);
    let r = Resolved { endpoint: 1, cluster: FIXED_LABEL_ID, attribute: LABEL_LIST };
    assert_eq!(
        c.answer(&r, &context(), Tag::Context(0)),
        Ok(vec![0x36, 0x00, 0x15, 0x2C, 0x00, 0x01, b'a', 0x2C, 0x01, 0x01, b'b', 0x18, 0x18])
    );
    assert_eq!(c.write(&r, &[0x16, 0x18], WriteOp::Replace, &context()), Err(Status::UnsupportedWrite));
    assert_eq!(c.labels().len(), 1);
}

#[test]
fn a_written_user_list_is_read_back() {
    let mut c = UserLabel::<2>::new();
    let r = Resolved { endpoint: 1, cluster: USER_LABEL_ID, attribute: LABEL_LIST };
    let written = [0x16, 0x15, 0x2C, 0x00, 0x02, b'i', b'n', 0x2C, 0x01, 0x01, b'b', 0x18, 0x18];
    assert_eq!(c.write(&r, &written, WriteOp::Replace, &context()), Ok(()));
    assert_eq!(c.labels().len(), 1);
    assert_eq!(c.labels()[0].label(), "in");
    assert_eq!(c.labels()[0].value(), "b");
    assert_eq!(c.labels()[0].as_label().value, "b");
    assert_eq!(
        c.answer(&r, &context(), Tag::Context(0)),
        Ok(vec![0x36, 0x00, 0x15, 0x2C, 0x00, 0x02, b'i', b'n', 0x2C, 0x01, 0x01, b'b', 0x18, 0x18])
    );
    // Three do not fit, and the two-item list that was there stays.
    let three = [
        0x16, 0x15, 0x2C, 0x00, 0x00, 0x2C, 0x01, 0x00, 0x18, 0x15, 0x2C, 0x00, 0x00, 0x2C, 0x01, 0x00, 0x18, 0x15, 0x2C, 0x00,
        0x00, 0x2C, 0x01, 0x00, 0x18, 0x18,
    ];
    assert_eq!(c.write(&r, &three, WriteOp::Replace, &context()), Err(Status::ResourceExhausted));
    assert_eq!(c.labels()[0].label(), "in");
    // An octet string is not a text.
    let octets = [0x16, 0x15, 0x30, 0x00, 0x01, b'a', 0x2C, 0x01, 0x00, 0x18, 0x18];
    assert!(c.write(&r, &octets, WriteOp::Replace, &context()).is_err());
    // Nor are octets that no text has.
    let broken = [0x16, 0x15, 0x2C, 0x00, 0x01, 0xFF, 0x2C, 0x01, 0x00, 0x18, 0x18];
    assert!(c.write(&r, &broken, WriteOp::Replace, &context()).is_err());
    assert_eq!(c.labels()[0].label(), "in");
}
